//! Brownfield adapter for native Pinocchio programs: reads the entrypoint
//! dispatch, the handler accounts, the instruction data structs and the
//! error enum of a program's sources, and renders a starter `.qedspec`.
//!
//! The program's files are handed in as text (`ProgramSources`); reading
//! them from disk is the caller's part.
use vstd::prelude::*;

use crate::outside::{parse_toml, regex_captures, regex_captures_all, toml_document};
use crate::text::{
    chars_of,
    contains,
    contains_str,
    decimal,
    find,
    find_chars,
    find_from,
    lemma_decimal_digits,
    lemma_find_from_occurs,
    is_ascii_digit,
    is_ascii_upper,
    join,
    push_char,
    push_decimal,
    push_joined,
    starts_with,
    str_eq,
    string_from_range,
    strings,
    to_ascii_upper,
    to_ascii_upper_char,
    trim,
    trim_str,
};

verus! {

broadcast use vstd::string::group_string_axioms;

// ---------------------------------------------------------------------------
// Names and types
// ---------------------------------------------------------------------------
/// The handler name of a dispatch target: `process_` removed when it
/// starts the name.
pub open spec fn handler_name(fn_name: Seq<char>) -> Seq<char> {
    if starts_with(fn_name, "process_"@) {
        fn_name.skip(8)
    } else {
        fn_name
    }
}

pub fn strip_process_prefix(fn_name: &str) -> (r: String)
    ensures
        r@ == handler_name(fn_name@),
{
    proof {
        reveal_strlit("process_");
    }
    let v = chars_of(fn_name);
    let p = chars_of("process_");
    if v.len() < p.len() {
        return String::from_str(fn_name);
    }
    let mut i: usize = 0;
    while i < p.len()
        invariant
            p@ == "process_"@,
            v@ == fn_name@,
            v.len() >= p.len(),
            i <= p.len(),
            forall|k: int| 0 <= k < i ==> v@[k] == p@[k],
        decreases p.len() - i,
    {
        if v[i] != p[i] {
            assert(v@.subrange(0, p@.len() as int)[i as int] != p@[i as int]);
            return String::from_str(fn_name);
        }
        i += 1;
    }
    assert(v@.subrange(0, p@.len() as int) =~= p@);
    string_from_range(&v, p.len(), v.len())
}

/// The `.qedspec` type of a Rust field type (leading and trailing white
/// space ignored); any other type maps to `U64`.
pub open spec fn spec_type(rust_ty: Seq<char>) -> Seq<char> {
    let t = trim(rust_ty);
    if t == "u8"@ {
        "U8"@
    } else if t == "u16"@ {
        "U16"@
    } else if t == "u32"@ {
        "U32"@
    } else if t == "u64"@ {
        "U64"@
    } else if t == "u128"@ {
        "U128"@
    } else if t == "i8"@ {
        "I8"@
    } else if t == "i16"@ {
        "I16"@
    } else if t == "i32"@ {
        "I32"@
    } else if t == "i64"@ {
        "I64"@
    } else if t == "i128"@ {
        "I128"@
    } else if t == "bool"@ {
        "Bool"@
    } else {
        "U64"@
    }
}

pub fn map_type(rust_ty: &str) -> (r: &'static str)
    ensures
        r@ == spec_type(rust_ty@),
{
    let t = trim_str(rust_ty);
    let t = t.as_str();
    if str_eq(t, "u8") {
        "U8"
    } else if str_eq(t, "u16") {
        "U16"
    } else if str_eq(t, "u32") {
        "U32"
    } else if str_eq(t, "u64") {
        "U64"
    } else if str_eq(t, "u128") {
        "U128"
    } else if str_eq(t, "i8") {
        "I8"
    } else if str_eq(t, "i16") {
        "I16"
    } else if str_eq(t, "i32") {
        "I32"
    } else if str_eq(t, "i64") {
        "I64"
    } else if str_eq(t, "i128") {
        "I128"
    } else if str_eq(t, "bool") {
        "Bool"
    } else {
        "U64"
    }
}

/// `snake_case` to `PascalCase`: underscores dropped, the char after each
/// underscore (and the first char) upper-cased when ASCII.
pub open spec fn pascal_from(s: Seq<char>, upper_next: bool) -> Seq<char>
    decreases s.len(),
{
    if s.len() == 0 {
        seq![]
    } else if s[0] == '_' {
        pascal_from(s.drop_first(), true)
    } else if upper_next {
        seq![to_ascii_upper(s[0])] + pascal_from(s.drop_first(), false)
    } else {
        seq![s[0]] + pascal_from(s.drop_first(), false)
    }
}

pub open spec fn pascal_case(s: Seq<char>) -> Seq<char> {
    pascal_from(s, true)
}

pub fn to_pascal_case(s: &str) -> (r: String)
    ensures
        r@ == pascal_case(s@),
{
    let v = chars_of(s);
    let mut out = String::new();
    let mut upper_next = true;
    let mut i: usize = 0;
    assert(v@.skip(0) == v@);
    while i < v.len()
        invariant
            i <= v.len(),
            v@ == s@,
            out@ + pascal_from(v@.skip(i as int), upper_next) == pascal_case(s@),
        decreases v.len() - i,
    {
        let ch = v[i];
        let ghost rest = v@.skip(i as int);
        assert(rest[0] == ch);
        assert(rest.drop_first() == v@.skip(i + 1));
        if ch == '_' {
            upper_next = true;
        } else if upper_next {
            let ghost before = out@;
            push_char(&mut out, to_ascii_upper_char(ch));
            assert(before + pascal_from(rest, true) == out@ + pascal_from(v@.skip(i + 1), false));
            upper_next = false;
        } else {
            let ghost before = out@;
            push_char(&mut out, ch);
            assert(before + pascal_from(rest, false) == out@ + pascal_from(v@.skip(i + 1), false));
        }
        i += 1;
    }
    assert(v@.skip(v.len() as int) =~= Seq::<char>::empty());
    assert(out@ + Seq::<char>::empty() == out@);
    out
}

/// `-` replaced by `_` throughout.
pub open spec fn dashes_to_underscores(s: Seq<char>) -> Seq<char> {
    s.map_values(|c: char| if c == '-' { '_' } else { c })
}

fn replace_dashes(s: &str) -> (r: String)
    ensures
        r@ == dashes_to_underscores(s@),
{
    let v = chars_of(s);
    let mut out = String::new();
    let mut i: usize = 0;
    while i < v.len()
        invariant
            i <= v.len(),
            v@ == s@,
            out@ == dashes_to_underscores(v@.take(i as int)),
        decreases v.len() - i,
    {
        let c = if v[i] == '-' {
            '_'
        } else {
            v[i]
        };
        push_char(&mut out, c);
        assert(dashes_to_underscores(v@.take(i + 1)) =~= dashes_to_underscores(v@.take(i as int)).push(c));
        i += 1;
    }
    assert(v@.take(v.len() as int) == v@);
    out
}

// ---------------------------------------------------------------------------
// Decimal parsing (`u8::from_str`)
// ---------------------------------------------------------------------------
pub open spec fn digits_value(s: Seq<char>) -> nat
    decreases s.len(),
{
    if s.len() == 0 {
        0
    } else {
        digits_value(s.drop_last()) * 10 + ((s.last() as nat) - 48) as nat
    }
}

pub open spec fn all_ascii_digits(s: Seq<char>) -> bool {
    forall|i: int| 0 <= i < s.len() ==> is_ascii_digit(#[trigger] s[i])
}

/// `u8::from_str`: an optional `+`, then one or more ASCII digits whose
/// value fits in a byte.
pub open spec fn parse_u8(s: Seq<char>) -> Option<u8> {
    let d = if s.len() > 0 && s[0] == '+' {
        s.drop_first()
    } else {
        s
    };
    if d.len() > 0 && all_ascii_digits(d) && digits_value(d) <= 255 {
        Some(digits_value(d) as u8)
    } else {
        None
    }
}

proof fn lemma_digits_value_grows(s: Seq<char>, i: int)
    requires
        0 <= i <= s.len(),
        all_ascii_digits(s),
    ensures
        digits_value(s.take(i)) <= digits_value(s),
    decreases s.len() - i,
{
    if i < s.len() {
        lemma_digits_value_grows(s, i + 1);
        assert(s.take(i + 1).drop_last() == s.take(i));
        assert(is_ascii_digit(s[i]));
    } else {
        assert(s.take(i) == s);
    }
}

pub fn parse_u8_str(s: &str) -> (r: Option<u8>)
    ensures
        r == parse_u8(s@),
{
    let v = chars_of(s);
    let mut start: usize = 0;
    if v.len() > 0 && v[0] == '+' {
        start = 1;
    }
    let ghost d = v@.skip(start as int);
    assert(d == (if s@.len() > 0 && s@[0] == '+' {
        s@.drop_first()
    } else {
        s@
    }));
    if start >= v.len() {
        return None;
    }
    let mut value: u32 = 0;
    let mut i: usize = start;
    while i < v.len()
        invariant
            start <= i <= v.len(),
            v@ == s@,
            d == v@.skip(start as int),
            d.len() > 0,
            parse_u8(s@) == (if d.len() > 0 && all_ascii_digits(d) && digits_value(d) <= 255 {
                Some(digits_value(d) as u8)
            } else {
                None
            }),
            value <= 255,
            all_ascii_digits(d.take(i - start)),
            value == digits_value(d.take(i - start)),
        decreases v.len() - i,
    {
        let c = v[i];
        assert(d[i - start] == c);
        assert(d.take(i - start + 1).drop_last() == d.take(i - start));
        if !('0' <= c && c <= '9') {
            assert(!is_ascii_digit(d[i - start]));
            return None;
        }
        let digit = (c as u32) - 48;
        value = value * 10 + digit;
        assert(all_ascii_digits(d.take(i - start + 1))) by {
            assert forall|k: int| 0 <= k < d.take(i - start + 1).len() implies is_ascii_digit(
                #[trigger] d.take(i - start + 1)[k],
            ) by {
                if k < i - start {
                    assert(d.take(i - start + 1)[k] == d.take(i - start)[k]);
                }
            }
        }
        if value > 255 {
            proof {
                if all_ascii_digits(d) {
                    lemma_digits_value_grows(d, i - start + 1);
                }
            }
            return None;
        }
        i += 1;
    }
    assert(d.take(v.len() - start) == d);
    Some(value as u8)
}

// ---------------------------------------------------------------------------
// Regular-expression captures
// ---------------------------------------------------------------------------
/// The text of group `i` of a capture; empty when the group is absent.
pub open spec fn group(cap: Seq<Option<Seq<char>>>, i: int) -> Seq<char> {
    if 0 <= i < cap.len() {
        match cap[i] {
            Some(t) => t,
            None => seq![],
        }
    } else {
        seq![]
    }
}

fn group_text(cap: &Vec<Option<String>>, i: usize) -> (r: String)
    ensures
        r@ == group(cap.deep_view(), i as int),
{
    if i < cap.len() {
        match &cap[i] {
            Some(t) => t.clone(),
            None => String::new(),
        }
    } else {
        String::new()
    }
}

/// The captures of a regular expression, none when it does not compile.
pub open spec fn captures_or_none(caps: Option<Seq<Seq<Option<Seq<char>>>>>) -> Seq<
    Seq<Option<Seq<char>>>,
> {
    match caps {
        Some(c) => c,
        None => seq![],
    }
}

// ---------------------------------------------------------------------------
// Entrypoint dispatch
// ---------------------------------------------------------------------------
/// `Some((N, ...)) => fn_name(`: a dispatch arm.
pub open spec fn dispatch_pattern() -> Seq<char> {
    r"Some\s*\(\s*\(\s*(\d+)\s*,[^)]*\)\s*\)\s*=>\s*(\w+)\s*\("@
}

/// The arm a capture of `dispatch_pattern` describes: its discriminator
/// (`u8::MAX` when it does not parse as a byte) and target, unless the
/// target is `Err` or `Ok`.
pub open spec fn arm_of(cap: Seq<Option<Seq<char>>>) -> Option<(u8, Seq<char>)> {
    let name = group(cap, 2);
    if name == "Err"@ || name == "Ok"@ {
        None
    } else {
        Some(
            (
                match parse_u8(group(cap, 1)) {
                    Some(d) => d,
                    None => 255u8,
                },
                name,
            ),
        )
    }
}

/// The arms of the captures, in source order.
pub open spec fn dispatch_arms(caps: Seq<Seq<Option<Seq<char>>>>) -> Seq<(u8, Seq<char>)>
    decreases caps.len(),
{
    if caps.len() == 0 {
        seq![]
    } else {
        let rest = dispatch_arms(caps.drop_last());
        match arm_of(caps.last()) {
            Some(a) => rest.push(a),
            None => rest,
        }
    }
}

/// `arms[i]` is `e`, and no earlier arm has its discriminator.
pub open spec fn first_at(arms: Seq<(u8, Seq<char>)>, e: (u8, Seq<char>), i: int) -> bool {
    0 <= i < arms.len() && arms[i] == e && forall|m: int| 0 <= m < i ==> #[trigger] arms[m].0 != e.0
}

/// Some entry of `out` has discriminator `d`.
pub open spec fn disc_in(out: Seq<(u8, Seq<char>)>, d: u8) -> bool {
    exists|j: int| 0 <= j < out.len() && #[trigger] out[j].0 == d
}

/// `e` is the first arm of its discriminator.
pub open spec fn has_first(arms: Seq<(u8, Seq<char>)>, e: (u8, Seq<char>)) -> bool {
    exists|i: int| first_at(arms, e, i)
}

/// `out` is `arms` sorted by discriminator with only the first arm of each
/// discriminator kept (a stable sort followed by a dedup by discriminator).
pub open spec fn first_per_disc(arms: Seq<(u8, Seq<char>)>, out: Seq<(u8, Seq<char>)>) -> bool {
    &&& forall|i: int, j: int| 0 <= i < j < out.len() ==> #[trigger] out[i].0 < #[trigger] out[j].0
    &&& forall|j: int| 0 <= j < out.len() ==> has_first(arms, #[trigger] out[j])
    &&& forall|i: int| 0 <= i < arms.len() ==> disc_in(out, #[trigger] arms[i].0)
}

fn arm_from(cap: &Vec<Option<String>>) -> (r: Option<(u8, String)>)
    ensures
        r.deep_view() == arm_of(cap.deep_view()),
{
    let name = group_text(cap, 2);
    if str_eq(name.as_str(), "Err") || str_eq(name.as_str(), "Ok") {
        return None;
    }
    let d = group_text(cap, 1);
    let disc = match parse_u8_str(d.as_str()) {
        Some(x) => x,
        None => 255u8,
    };
    Some((disc, name))
}

proof fn lemma_add_existing_arm(arms: Seq<(u8, Seq<char>)>, o: Seq<(u8, Seq<char>)>, a: (u8, Seq<char>), pos: int)
    requires
        first_per_disc(arms, o),
        0 <= pos < o.len(),
        o[pos].0 == a.0,
    ensures
        first_per_disc(arms.push(a), o),
{
    let arms2 = arms.push(a);
    assert forall|j: int| 0 <= j < o.len() implies has_first(arms2, #[trigger] o[j]) by {
        let i = choose|i: int| first_at(arms, o[j], i);
        assert(arms2[i] == arms[i]);
        assert forall|m: int| 0 <= m < i implies #[trigger] arms2[m].0 != o[j].0 by {
            assert(arms2[m] == arms[m]);
        }
        assert(first_at(arms2, o[j], i));
    }
    assert forall|i: int| 0 <= i < arms2.len() implies disc_in(o, #[trigger] arms2[i].0) by {
        if i < arms.len() {
            assert(arms2[i] == arms[i]);
            assert(disc_in(o, arms[i].0));
        } else {
            assert(o[pos].0 == arms2[i].0);
        }
    }
}

proof fn lemma_add_new_arm(arms: Seq<(u8, Seq<char>)>, o: Seq<(u8, Seq<char>)>, a: (u8, Seq<char>), pos: int)
    requires
        first_per_disc(arms, o),
        0 <= pos <= o.len(),
        forall|j: int| 0 <= j < pos ==> #[trigger] o[j].0 < a.0,
        pos < o.len() ==> a.0 < o[pos].0,
    ensures
        first_per_disc(arms.push(a), o.insert(pos, a)),
{
    let arms2 = arms.push(a);
    let n = o.insert(pos, a);
    assert forall|j: int| pos <= j < o.len() implies a.0 < #[trigger] o[j].0 by {
        if j > pos {
            assert(o[pos].0 < o[j].0);
        }
    }
    assert forall|i: int| 0 <= i < arms.len() implies #[trigger] arms[i].0 != a.0 by {
        assert(disc_in(o, arms[i].0));
        let j = choose|j: int| 0 <= j < o.len() && #[trigger] o[j].0 == arms[i].0;
    }
    assert forall|i: int, j: int| 0 <= i < j < n.len() implies #[trigger] n[i].0 < #[trigger] n[j].0 by {
        if j < pos {
            assert(n[i] == o[i] && n[j] == o[j]);
        } else if j == pos {
            assert(n[i] == o[i]);
        } else if i < pos {
            assert(n[i] == o[i] && n[j] == o[j - 1]);
        } else if i == pos {
            assert(n[j] == o[j - 1]);
        } else {
            assert(n[i] == o[i - 1] && n[j] == o[j - 1]);
        }
    }
    assert forall|j: int| 0 <= j < n.len() implies has_first(arms2, #[trigger] n[j]) by {
        if j == pos {
            assert(arms2[arms.len() as int] == n[j]);
            assert forall|m: int| 0 <= m < arms.len() implies #[trigger] arms2[m].0 != n[j].0 by {
                assert(arms2[m] == arms[m]);
            }
            assert(first_at(arms2, n[j], arms.len() as int));
        } else {
            let jj = if j < pos {
                j
            } else {
                j - 1
            };
            assert(n[j] == o[jj]);
            assert(has_first(arms, o[jj]));
            let i = choose|i: int| first_at(arms, o[jj], i);
            assert(arms2[i] == arms[i]);
            assert forall|m: int| 0 <= m < i implies #[trigger] arms2[m].0 != n[j].0 by {
                assert(arms2[m] == arms[m]);
            }
            assert(first_at(arms2, n[j], i));
        }
    }
    assert forall|i: int| 0 <= i < arms2.len() implies disc_in(n, #[trigger] arms2[i].0) by {
        if i < arms.len() {
            assert(arms2[i] == arms[i]);
            assert(disc_in(o, arms[i].0));
            let j = choose|j: int| 0 <= j < o.len() && #[trigger] o[j].0 == arms[i].0;
            if j < pos {
                assert(n[j] == o[j]);
                assert(n[j].0 == arms2[i].0);
            } else {
                assert(n[j + 1] == o[j]);
                assert(n[j + 1].0 == arms2[i].0);
            }
        } else {
            assert(n[pos].0 == arms2[i].0);
        }
    }
    assert(arms.push(a) == arms2);
    assert(o.insert(pos, a) == n);
}

/// Adds an arm to a table built from `arms`.
fn add_arm(out: &mut Vec<(u8, String)>, d: u8, name: String, Ghost(arms): Ghost<Seq<(u8, Seq<char>)>>)
    requires
        first_per_disc(arms, old(out).deep_view()),
    ensures
        first_per_disc(arms.push((d, name@)), final(out).deep_view()),
{
    let ghost o = out.deep_view();
    let ghost a = (d, name@);
    let mut pos: usize = 0;
    while pos < out.len() && out[pos].0 < d
        invariant
            pos <= out.len(),
            out.deep_view() == o,
            forall|j: int| 0 <= j < pos ==> #[trigger] o[j].0 < d,
        decreases out.len() - pos,
    {
        pos += 1;
    }
    if pos < out.len() && out[pos].0 == d {
        proof {
            lemma_add_existing_arm(arms, o, a, pos as int);
        }
        return ;
    }
    proof {
        lemma_add_new_arm(arms, o, a, pos as int);
    }
    out.insert(pos, (d, name));
    assert(out.deep_view() =~= o.insert(pos as int, a));
}

/// The dispatch table read from the captures of `dispatch_pattern`: each
/// discriminator once, ascending, with the target of its first arm.
pub fn dispatch_entries(caps: &Vec<Vec<Option<String>>>) -> (out: Vec<(u8, String)>)
    ensures
        first_per_disc(dispatch_arms(caps.deep_view()), out.deep_view()),
{
    let ghost cdv = caps.deep_view();
    let mut out: Vec<(u8, String)> = Vec::new();
    let mut k: usize = 0;
    assert(cdv.take(0) =~= Seq::<Seq<Option<Seq<char>>>>::empty());
    assert(out.deep_view() =~= Seq::<(u8, Seq<char>)>::empty());
    while k < caps.len()
        invariant
            k <= caps.len(),
            cdv == caps.deep_view(),
            first_per_disc(dispatch_arms(cdv.take(k as int)), out.deep_view()),
        decreases caps.len() - k,
    {
        let ghost arms = dispatch_arms(cdv.take(k as int));
        assert(cdv.take(k + 1).drop_last() == cdv.take(k as int));
        assert(cdv.take(k + 1).last() == cdv[k as int]);
        assert(caps[k as int].deep_view() == cdv[k as int]);
        let arm = arm_from(&caps[k]);
        match arm {
            None => {},
            Some((d, name)) => {
                add_arm(&mut out, d, name, Ghost(arms));
            },
        }
        k += 1;
    }
    assert(cdv.take(caps.len() as int) == cdv);
    out
}

// ---------------------------------------------------------------------------
// Handler accounts
// ---------------------------------------------------------------------------
/// `let [a, b, ..] = accounts`: the account destructuring of a handler.
pub open spec fn accounts_pattern() -> Seq<char> {
    r"let\s*\[([^\]]*)\]\s*=\s*accounts"@
}

/// A lower-case identifier.
pub open spec fn ident_pattern() -> Seq<char> {
    r"\b([a-z][a-z0-9_]*)\b"@
}

/// Names that are not accounts: `_`-prefixed bindings, rest patterns,
/// program ids and `mut`.
pub open spec fn skipped_account(name: Seq<char>) -> bool {
    ||| starts_with(name, "_"@)
    ||| name == "remaining"@
    ||| name == "rest"@
    ||| name == "accounts"@
    ||| name == "program"@
    ||| name == "id"@
    ||| name == "mut"@
}

/// The account names among the identifier captures, in order.
pub open spec fn account_names_of(caps: Seq<Seq<Option<Seq<char>>>>) -> Seq<Seq<char>>
    decreases caps.len(),
{
    if caps.len() == 0 {
        seq![]
    } else {
        let rest = account_names_of(caps.drop_last());
        let name = group(caps.last(), 1);
        if skipped_account(name) {
            rest
        } else {
            rest.push(name)
        }
    }
}

/// The accounts a handler's source destructures (first destructuring only).
pub open spec fn accounts_in(src: Seq<char>) -> Seq<Seq<char>> {
    let caps = captures_or_none(regex_captures(accounts_pattern(), src));
    if caps.len() == 0 {
        seq![]
    } else {
        account_names_of(captures_or_none(regex_captures(ident_pattern(), group(caps[0], 1))))
    }
}

fn starts_with_underscore(s: &String) -> (r: bool)
    ensures
        r == starts_with(s@, "_"@),
{
    proof {
        reveal_strlit("_");
    }
    let v = chars_of(s.as_str());
    assert("_"@ =~= seq!['_']);
    if v.len() == 0 {
        return false;
    }
    assert(v@ == s@);
    assert(v@.subrange(0, 1) =~= seq![v@[0]]);
    if v[0] != '_' {
        assert(v@.subrange(0, 1)[0] != "_"@[0]);
    }
    v[0] == '_'
}

fn is_skipped_account(name: &String) -> (r: bool)
    ensures
        r == skipped_account(name@),
{
    let n = name.as_str();
    starts_with_underscore(name) || str_eq(n, "remaining") || str_eq(n, "rest") || str_eq(
        n,
        "accounts",
    ) || str_eq(n, "program") || str_eq(n, "id") || str_eq(n, "mut")
}

/// The account names of the identifier captures.
pub fn account_names(caps: &Vec<Vec<Option<String>>>) -> (r: Vec<String>)
    ensures
        strings(r@) == account_names_of(caps.deep_view()),
{
    let ghost cdv = caps.deep_view();
    let mut r: Vec<String> = Vec::new();
    let mut k: usize = 0;
    while k < caps.len()
        invariant
            k <= caps.len(),
            cdv == caps.deep_view(),
            strings(r@) == account_names_of(cdv.take(k as int)),
        decreases caps.len() - k,
    {
        assert(cdv.take(k + 1).drop_last() == cdv.take(k as int));
        assert(cdv.take(k + 1).last() == caps[k as int].deep_view());
        let name = group_text(&caps[k], 1);
        if !is_skipped_account(&name) {
            let ghost before = strings(r@);
            r.push(name);
            assert(strings(r@) =~= before.push(r@.last()@));
        }
        k += 1;
    }
    assert(cdv.take(caps.len() as int) == cdv);
    r
}

fn captures_or_empty(caps: Option<Vec<Vec<Option<String>>>>) -> (r: Vec<Vec<Option<String>>>)
    ensures
        r.deep_view() == captures_or_none(caps.deep_view()),
{
    match caps {
        Some(c) => c,
        None => {
            let e: Vec<Vec<Option<String>>> = Vec::new();
            assert(e.deep_view() =~= Seq::<Seq<Option<Seq<char>>>>::empty());
            e
        },
    }
}

/// The accounts a handler's source destructures from `accounts`.
pub fn extract_accounts(src: &str) -> (r: Vec<String>)
    ensures
        strings(r@) == accounts_in(src@),
{
    let caps = captures_or_empty(regex_captures_all(r"let\s*\[([^\]]*)\]\s*=\s*accounts", src));
    if caps.len() == 0 {
        return Vec::new();
    }
    let body = group_text(&caps[0], 1);
    let idents = captures_or_empty(regex_captures_all(r"\b([a-z][a-z0-9_]*)\b", body.as_str()));
    account_names(&idents)
}

// ---------------------------------------------------------------------------
// Instruction data fields
// ---------------------------------------------------------------------------
/// `pub name: Type`: a field of the instruction data struct.
pub open spec fn field_pattern() -> Seq<char> {
    r"pub\s+([a-z][a-z0-9_]*)\s*:\s*([A-Za-z][A-Za-z0-9_<>\[\];]*)"@
}

/// The `(name, spec type)` of each field capture, `_`-prefixed fields
/// (padding) left out.
pub open spec fn fields_of(caps: Seq<Seq<Option<Seq<char>>>>) -> Seq<(Seq<char>, Seq<char>)>
    decreases caps.len(),
{
    if caps.len() == 0 {
        seq![]
    } else {
        let rest = fields_of(caps.drop_last());
        let name = group(caps.last(), 1);
        if starts_with(name, "_"@) {
            rest
        } else {
            rest.push((name, spec_type(trim(group(caps.last(), 2)))))
        }
    }
}

/// Index of the `}` that closes a `{` already open at depth `depth`,
/// scanning from `i`.
pub open spec fn close_index(s: Seq<char>, i: nat, depth: nat) -> Option<nat>
    decreases s.len() - i,
{
    if i >= s.len() {
        None
    } else if s[i as int] == '{' {
        close_index(s, i + 1, depth + 1)
    } else if s[i as int] == '}' {
        if depth <= 1 {
            Some(i)
        } else {
            close_index(s, i + 1, (depth - 1) as nat)
        }
    } else {
        close_index(s, i + 1, depth)
    }
}

/// The char range of the body of the first `#[repr(C...)]` struct, when it
/// has one and it is not empty.
pub open spec fn struct_body(src: Seq<char>) -> Option<(nat, nat)> {
    match find(src, "#[repr(C"@) {
        None => None,
        Some(r) => match find_from(src, "{"@, r) {
            None => None,
            Some(o) => {
                let start = o + 1;
                let end = match close_index(src, start, 1) {
                    Some(e) => e,
                    None => start,
                };
                if end == start {
                    None
                } else {
                    Some((start, end))
                }
            },
        },
    }
}

/// The fields of the instruction data struct of a handler's source.
pub open spec fn instruction_fields_in(src: Seq<char>) -> Seq<(Seq<char>, Seq<char>)> {
    match struct_body(src) {
        None => seq![],
        Some((b, e)) => fields_of(
            captures_or_none(regex_captures(field_pattern(), src.subrange(b as int, e as int))),
        ),
    }
}

/// The fields of the field captures.
pub fn fields_from_captures(caps: &Vec<Vec<Option<String>>>) -> (r: Vec<(String, String)>)
    ensures
        r.deep_view() == fields_of(caps.deep_view()),
{
    let ghost cdv = caps.deep_view();
    let mut r: Vec<(String, String)> = Vec::new();
    let mut k: usize = 0;
    assert(r.deep_view() =~= Seq::<(Seq<char>, Seq<char>)>::empty());
    while k < caps.len()
        invariant
            k <= caps.len(),
            cdv == caps.deep_view(),
            r.deep_view() == fields_of(cdv.take(k as int)),
        decreases caps.len() - k,
    {
        assert(cdv.take(k + 1).drop_last() == cdv.take(k as int));
        assert(cdv.take(k + 1).last() == caps[k as int].deep_view());
        let name = group_text(&caps[k], 1);
        if !starts_with_underscore(&name) {
            let ty = group_text(&caps[k], 2);
            let t = trim_str(ty.as_str());
            let mapped = String::from_str(map_type(t.as_str()));
            let ghost before = r.deep_view();
            let ghost e = (name@, mapped@);
            r.push((name, mapped));
            assert(r.deep_view() =~= before.push(e));
        }
        k += 1;
    }
    assert(cdv.take(caps.len() as int) == cdv);
    r
}

/// The index of the `}` closing a `{` opened just before `start`.
fn close_brace(v: &Vec<char>, start: usize) -> (r: Option<usize>)
    requires
        1 <= start <= v.len(),
    ensures
        r matches Some(e) ==> close_index(v@, start as nat, 1) == Some(e as nat) && start <= e < v.len(),
        r is None ==> close_index(v@, start as nat, 1) is None,
{
    let mut depth: usize = 1;
    let mut i = start;
    while i < v.len()
        invariant
            1 <= start <= i <= v.len(),
            1 <= depth <= i - start + 1,
            close_index(v@, start as nat, 1) == close_index(v@, i as nat, depth as nat),
        decreases v.len() - i,
    {
        let ch = v[i];
        if ch == '{' {
            depth += 1;
        } else if ch == '}' {
            if depth <= 1 {
                return Some(i);
            }
            depth -= 1;
        }
        i += 1;
    }
    None
}

/// The fields of the instruction data struct (`#[repr(C...)]`) of a
/// handler's source, as `(name, spec type)`.
pub fn extract_instruction_data_fields(src: &str) -> (r: Vec<(String, String)>)
    ensures
        r.deep_view() == instruction_fields_in(src@),
{
    proof {
        reveal_strlit("{");
    }
    let v = chars_of(src);
    let repr = chars_of("#[repr(C");
    let brace = chars_of("{");
    let empty: Vec<(String, String)> = Vec::new();
    assert(empty.deep_view() =~= Seq::<(Seq<char>, Seq<char>)>::empty());
    let repr_pos = match find_chars(&v, &repr, 0) {
        Some(p) => p,
        None => {
            return empty;
        },
    };
    let open = match find_chars(&v, &brace, repr_pos) {
        Some(o) => o,
        None => {
            return empty;
        },
    };
    proof {
        let r = find(src@, "#[repr(C"@);
        assert(find_from(v@, repr@, 0) == Some(repr_pos as nat));
        assert(r == Some(repr_pos as nat));
    }
    let body_start = open + 1;
    let body_end = match close_brace(&v, body_start) {
        Some(e) => e,
        None => body_start,
    };
    assert(v@ == src@);
    if body_end == body_start {
        return empty;
    }
    let body = string_from_range(&v, body_start, body_end);
    let caps = captures_or_empty(
        regex_captures_all(
            r"pub\s+([a-z][a-z0-9_]*)\s*:\s*([A-Za-z][A-Za-z0-9_<>\[\];]*)",
            body.as_str(),
        ),
    );
    fields_from_captures(&caps)
}

// ---------------------------------------------------------------------------
// Error enum
// ---------------------------------------------------------------------------
/// `pub enum <Name>Error { ... }`.
pub open spec fn error_enum_pattern() -> Seq<char> {
    r"(?m)pub\s+enum\s+\w*[Ee]rror\s*\{([^}]*)\}"@
}

/// A capitalized identifier.
pub open spec fn variant_pattern() -> Seq<char> {
    r"\b([A-Z][A-Za-z0-9]*)\b"@
}

/// Every char is an ASCII capital or digit (a constant-like name).
pub open spec fn all_upper_or_digit(s: Seq<char>) -> bool {
    forall|i: int| 0 <= i < s.len() ==> is_ascii_upper(#[trigger] s[i]) || is_ascii_digit(s[i])
}

/// The variant names among the captures, constant-like names left out.
pub open spec fn variants_of(caps: Seq<Seq<Option<Seq<char>>>>) -> Seq<Seq<char>>
    decreases caps.len(),
{
    if caps.len() == 0 {
        seq![]
    } else {
        let rest = variants_of(caps.drop_last());
        let v = group(caps.last(), 1);
        if all_upper_or_digit(v) {
            rest
        } else {
            rest.push(v)
        }
    }
}

/// The variants of the first error enum of a source file.
pub open spec fn error_variants_in(src: Seq<char>) -> Seq<Seq<char>> {
    let caps = captures_or_none(regex_captures(error_enum_pattern(), src));
    if caps.len() == 0 {
        seq![]
    } else {
        variants_of(captures_or_none(regex_captures(variant_pattern(), group(caps[0], 1))))
    }
}

fn is_all_upper_or_digit(s: &String) -> (r: bool)
    ensures
        r == all_upper_or_digit(s@),
{
    let v = chars_of(s.as_str());
    let mut i: usize = 0;
    while i < v.len()
        invariant
            i <= v.len(),
            v@ == s@,
            forall|k: int| 0 <= k < i ==> is_ascii_upper(#[trigger] v@[k]) || is_ascii_digit(v@[k]),
        decreases v.len() - i,
    {
        let c = v[i];
        if !(('A' <= c && c <= 'Z') || ('0' <= c && c <= '9')) {
            return false;
        }
        i += 1;
    }
    true
}

/// The variant names of the variant captures.
pub fn variants_from_captures(caps: &Vec<Vec<Option<String>>>) -> (r: Vec<String>)
    ensures
        strings(r@) == variants_of(caps.deep_view()),
{
    let ghost cdv = caps.deep_view();
    let mut r: Vec<String> = Vec::new();
    let mut k: usize = 0;
    while k < caps.len()
        invariant
            k <= caps.len(),
            cdv == caps.deep_view(),
            strings(r@) == variants_of(cdv.take(k as int)),
        decreases caps.len() - k,
    {
        assert(cdv.take(k + 1).drop_last() == cdv.take(k as int));
        assert(cdv.take(k + 1).last() == caps[k as int].deep_view());
        let v = group_text(&caps[k], 1);
        if !is_all_upper_or_digit(&v) {
            let ghost before = strings(r@);
            r.push(v);
            assert(strings(r@) =~= before.push(r@.last()@));
        }
        k += 1;
    }
    assert(cdv.take(caps.len() as int) == cdv);
    r
}

/// The variants of the first error enum of a source file.
pub fn error_variants(src: &str) -> (r: Vec<String>)
    ensures
        strings(r@) == error_variants_in(src@),
{
    let caps = captures_or_empty(
        regex_captures_all(r"(?m)pub\s+enum\s+\w*[Ee]rror\s*\{([^}]*)\}", src),
    );
    if caps.len() == 0 {
        return Vec::new();
    }
    let body = group_text(&caps[0], 1);
    let vcaps = captures_or_empty(regex_captures_all(r"\b([A-Z][A-Za-z0-9]*)\b", body.as_str()));
    variants_from_captures(&vcaps)
}

// ---------------------------------------------------------------------------
// The program's files
// ---------------------------------------------------------------------------
/// A file of the program: its path relative to the program root (such as
/// `src/lib.rs`), and its text when it can be read as UTF-8.
pub struct SourceFile {
    pub path: String,
    pub contents: Option<String>,
}

/// What the adapter reads of a program directory.
pub struct ProgramSources {
    /// The last component of the program root, when it is UTF-8.
    pub root_name: Option<String>,
    /// The text of `Cargo.toml`, when readable.
    pub manifest: Option<String>,
    /// The `.rs` files under `src/`, in directory-walk order, and
    /// `src/error.rs` when it exists but is not such a file.
    pub files: Vec<SourceFile>,
}

pub open spec fn text_of(f: SourceFile) -> Option<Seq<char>> {
    match f.contents {
        Some(c) => Some(c@),
        None => None,
    }
}

/// The first file at `path`: its text, or `None` when unreadable; `None`
/// when there is no file at `path`.
pub open spec fn file_at(files: Seq<SourceFile>, path: Seq<char>) -> Option<Option<Seq<char>>>
    decreases files.len(),
{
    if files.len() == 0 {
        None
    } else if files[0].path@ == path {
        Some(text_of(files[0]))
    } else {
        file_at(files.drop_first(), path)
    }
}

/// The text of the file at `path`, when there is one and it is readable.
pub open spec fn read(files: Seq<SourceFile>, path: Seq<char>) -> Option<Seq<char>> {
    match file_at(files, path) {
        Some(Some(t)) => Some(t),
        _ => None,
    }
}

fn find_file(files: &Vec<SourceFile>, path: &str) -> (r: Option<usize>)
    ensures
        r matches Some(i) ==> i < files.len() && file_at(files@, path@) == Some(text_of(files@[i as int])),
        r is None ==> file_at(files@, path@) is None,
{
    let mut i: usize = 0;
    assert(files@.skip(0) == files@);
    while i < files.len()
        invariant
            i <= files.len(),
            file_at(files@, path@) == file_at(files@.skip(i as int), path@),
        decreases files.len() - i,
    {
        assert(files@.skip(i as int)[0] == files@[i as int]);
        if str_eq(files[i].path.as_str(), path) {
            return Some(i);
        }
        assert(files@.skip(i as int).drop_first() == files@.skip(i + 1));
        i += 1;
    }
    None
}

fn read_file(files: &Vec<SourceFile>, path: &str) -> (r: Option<String>)
    ensures
        r.deep_view() == read(files@, path@),
{
    match find_file(files, path) {
        Some(i) => match &files[i].contents {
            Some(c) => Some(c.clone()),
            None => None,
        },
        None => None,
    }
}

// ---------------------------------------------------------------------------
// Dispatch source and table
// ---------------------------------------------------------------------------
/// The source that holds the dispatch: the first of `src/entrypoint.rs`
/// and `src/lib.rs` that mentions `split_first`, else the first of them
/// that is not empty.
pub open spec fn dispatch_text(files: Seq<SourceFile>) -> Option<Seq<char>> {
    let e = read(files, "src/entrypoint.rs"@);
    let l = read(files, "src/lib.rs"@);
    if e is Some && contains(e->0, "split_first"@) {
        e
    } else if l is Some && contains(l->0, "split_first"@) {
        l
    } else if e is Some && e->0.len() > 0 {
        e
    } else if l is Some && l->0.len() > 0 {
        l
    } else {
        None
    }
}

fn dispatch_source(sources: &ProgramSources) -> (r: Option<String>)
    ensures
        r.deep_view() == dispatch_text(sources.files@),
{
    let e = read_file(&sources.files, "src/entrypoint.rs");
    let l = read_file(&sources.files, "src/lib.rs");
    if let Some(t) = &e {
        if contains_str(t.as_str(), "split_first") {
            return e;
        }
    }
    if let Some(t) = &l {
        if contains_str(t.as_str(), "split_first") {
            return l;
        }
    }
    if let Some(t) = &e {
        if !t.as_str().is_empty() {
            return e;
        }
    }
    if let Some(t) = &l {
        if !t.as_str().is_empty() {
            return l;
        }
    }
    None
}

/// Why the dispatch table could not be read.
#[derive(Debug, Clone, Copy, PartialEq, Eq, Structural)]
pub enum AdaptError {
    /// Neither `src/entrypoint.rs` nor `src/lib.rs` holds a dispatch source.
    DispatchSourceNotFound,
    /// The dispatch source has no `Some((N, ...)) => fn_name(` arm.
    NoDispatchArms,
}

impl AdaptError {
    /// The error's message.
    pub fn message(&self) -> (r: String)
        ensures
            r@ == match self {
                AdaptError::DispatchSourceNotFound => "dispatch source not found"@,
                AdaptError::NoDispatchArms => "no `Some((N, ...)) => fn_name(` arms found in dispatch"@,
            },
    {
        match self {
            AdaptError::DispatchSourceNotFound => String::from_str("dispatch source not found"),
            AdaptError::NoDispatchArms => String::from_str(
                "no `Some((N, ...)) => fn_name(` arms found in dispatch",
            ),
        }
    }
}

/// The arms of the dispatch source.
pub open spec fn arms_in(src: Seq<char>) -> Seq<(u8, Seq<char>)> {
    dispatch_arms(captures_or_none(regex_captures(dispatch_pattern(), src)))
}

/// What reading the dispatch table gives: the dispatch table of the arms
/// of the dispatch source, or the error when there is no dispatch source or
/// it has no arm.
pub open spec fn dispatch_outcome(files: Seq<SourceFile>, r: Result<Seq<(u8, Seq<char>)>, AdaptError>) -> bool {
    match dispatch_text(files) {
        None => r == Err::<Seq<(u8, Seq<char>)>, AdaptError>(AdaptError::DispatchSourceNotFound),
        Some(t) => if arms_in(t).len() == 0 {
            r == Err::<Seq<(u8, Seq<char>)>, AdaptError>(AdaptError::NoDispatchArms)
        } else {
            r matches Ok(table) && first_per_disc(arms_in(t), table)
        },
    }
}

pub open spec fn table_view(r: Result<Vec<(u8, String)>, AdaptError>) -> Result<Seq<(u8, Seq<char>)>, AdaptError> {
    match r {
        Ok(t) => Ok(t.deep_view()),
        Err(e) => Err(e),
    }
}

/// The dispatch table of the program's entrypoint: each discriminator once,
/// ascending, with its first target.
pub fn parse_dispatch(sources: &ProgramSources) -> (r: Result<Vec<(u8, String)>, AdaptError>)
    ensures
        dispatch_outcome(sources.files@, table_view(r)),
{
    let src = match dispatch_source(sources) {
        Some(s) => s,
        None => {
            return Err(AdaptError::DispatchSourceNotFound);
        },
    };
    let caps = captures_or_empty(
        regex_captures_all(
            r"Some\s*\(\s*\(\s*(\d+)\s*,[^)]*\)\s*\)\s*=>\s*(\w+)\s*\(",
            src.as_str(),
        ),
    );
    let entries = dispatch_entries(&caps);
    if entries.len() == 0 {
        proof {
            let arms = arms_in(src@);
            if arms.len() > 0 {
                assert(disc_in(entries.deep_view(), arms[0].0));
            }
        }
        return Err(AdaptError::NoDispatchArms);
    }
    proof {
        let arms = arms_in(src@);
        if arms.len() == 0 {
            assert(has_first(arms, entries.deep_view()[0]));
        }
    }
    Ok(entries)
}

// ---------------------------------------------------------------------------
// Handlers and the error enum of the program
// ---------------------------------------------------------------------------
/// The source of a handler: the first readable of
/// `src/instructions/<handler>.rs`, `src/instructions/<fn_name>.rs` and
/// `src/<handler>.rs`.
pub open spec fn handler_text(files: Seq<SourceFile>, fn_name: Seq<char>) -> Option<Seq<char>> {
    let h = handler_name(fn_name);
    let a = read(files, "src/instructions/"@ + h + ".rs"@);
    let b = read(files, "src/instructions/"@ + fn_name + ".rs"@);
    let c = read(files, "src/"@ + h + ".rs"@);
    if a is Some {
        a
    } else if b is Some {
        b
    } else {
        c
    }
}

/// The accounts and data fields of a handler; none when its source is not
/// found.
pub open spec fn handler_parts(files: Seq<SourceFile>, fn_name: Seq<char>) -> (
    Seq<Seq<char>>,
    Seq<(Seq<char>, Seq<char>)>,
) {
    match handler_text(files, fn_name) {
        Some(t) => (accounts_in(t), instruction_fields_in(t)),
        None => (seq![], seq![]),
    }
}

/// The accounts and instruction data fields of the handler that `fn_name`
/// dispatches to.
pub fn parse_handler(sources: &ProgramSources, fn_name: &str) -> (r: (Vec<String>, Vec<(String, String)>))
    ensures
        strings(r.0@) == handler_parts(sources.files@, fn_name@).0,
        r.1.deep_view() == handler_parts(sources.files@, fn_name@).1,
{
    let handler = strip_process_prefix(fn_name);
    let a = String::from_str("src/instructions/").concat(handler.as_str()).concat(".rs");
    let b = String::from_str("src/instructions/").concat(fn_name).concat(".rs");
    let c = String::from_str("src/").concat(handler.as_str()).concat(".rs");
    let mut text = read_file(&sources.files, a.as_str());
    if text.is_none() {
        text = read_file(&sources.files, b.as_str());
        if text.is_none() {
            text = read_file(&sources.files, c.as_str());
        }
    }
    match text {
        Some(t) => (extract_accounts(t.as_str()), extract_instruction_data_fields(t.as_str())),
        None => {
            let f: Vec<(String, String)> = Vec::new();
            assert(f.deep_view() =~= Seq::<(Seq<char>, Seq<char>)>::empty());
            let acc: Vec<String> = Vec::new();
            assert(strings(acc@) =~= Seq::<Seq<char>>::empty());
            (acc, f)
        },
    }
}

/// Where the error enum is looked for: `src/error.rs` when it exists, else
/// every file, in order.
pub open spec fn error_candidates(files: Seq<SourceFile>) -> Seq<Option<Seq<char>>> {
    match file_at(files, "src/error.rs"@) {
        Some(t) => seq![t],
        None => files.map_values(|f: SourceFile| text_of(f)),
    }
}

/// The variants of the first candidate whose error enum has any.
pub open spec fn first_variants(cands: Seq<Option<Seq<char>>>) -> Option<Seq<Seq<char>>>
    decreases cands.len(),
{
    if cands.len() == 0 {
        None
    } else {
        match cands[0] {
            Some(t) => if error_variants_in(t).len() > 0 {
                Some(error_variants_in(t))
            } else {
                first_variants(cands.drop_first())
            },
            None => first_variants(cands.drop_first()),
        }
    }
}

pub open spec fn variants_view(r: Option<Vec<String>>) -> Option<Seq<Seq<char>>> {
    match r {
        Some(v) => Some(strings(v@)),
        None => None,
    }
}

/// The variants of the program's error enum.
pub fn discover_error_enum(sources: &ProgramSources) -> (r: Option<Vec<String>>)
    ensures
        variants_view(r) == first_variants(error_candidates(sources.files@)),
{
    let files = &sources.files;
    match find_file(files, "src/error.rs") {
        Some(i) => {
            let ghost cands = error_candidates(files@);
            assert(cands == seq![text_of(files@[i as int])]);
            assert(cands[0] == text_of(files@[i as int]));
            assert(cands.drop_first() =~= Seq::<Option<Seq<char>>>::empty());
            assert(first_variants(cands.drop_first()) == None::<Seq<Seq<char>>>);
            match &files[i].contents {
                Some(t) => {
                    let vs = error_variants(t.as_str());
                    if vs.len() > 0 {
                        Some(vs)
                    } else {
                        None
                    }
                },
                None => None,
            }
        },
        None => {
            let ghost cands = error_candidates(files@);
            let mut k: usize = 0;
            assert(cands.skip(0) == cands);
            while k < files.len()
                invariant
                    k <= files.len(),
                    cands == files@.map_values(|f: SourceFile| text_of(f)),
                    cands == error_candidates(sources.files@),
                    files@ == sources.files@,
                    first_variants(cands) == first_variants(cands.skip(k as int)),
                decreases files.len() - k,
            {
                assert(cands.skip(k as int)[0] == text_of(files@[k as int]));
                assert(cands.skip(k as int).drop_first() == cands.skip(k + 1));
                if let Some(t) = &files[k].contents {
                    let vs = error_variants(t.as_str());
                    if vs.len() > 0 {
                        return Some(vs);
                    }
                }
                k += 1;
            }
            assert(cands.skip(files.len() as int) =~= Seq::<Option<Seq<char>>>::empty());
            None
        },
    }
}

// ---------------------------------------------------------------------------
// The manifest
// ---------------------------------------------------------------------------
/// The value of the first entry with `key`.
pub open spec fn lookup<V>(entries: Seq<(Seq<char>, V)>, key: Seq<char>) -> Option<V>
    decreases entries.len(),
{
    if entries.len() == 0 {
        None
    } else if entries[0].0 == key {
        Some(entries[0].1)
    } else {
        lookup(entries.drop_first(), key)
    }
}

/// `package.name` of the manifest, `-` replaced by `_`.
pub open spec fn crate_name(manifest: Option<Seq<char>>) -> Option<Seq<char>> {
    match manifest {
        None => None,
        Some(m) => match toml_document(m) {
            None => None,
            Some(doc) => crate_name_of(doc),
        },
    }
}

/// The manifest is TOML and `pinocchio` is a key of its `[dependencies]`
/// table.
pub open spec fn pinocchio_manifest(manifest: Option<Seq<char>>) -> bool {
    match manifest {
        None => false,
        Some(m) => match toml_document(m) {
            None => false,
            Some(doc) => depends_on_pinocchio(doc),
        },
    }
}

pub open spec fn option_text(o: Option<String>) -> Option<Seq<char>> {
    match o {
        Some(s) => Some(s@),
        None => None,
    }
}

fn lookup_top(
    doc: &Vec<(String, Option<Vec<(String, Option<String>)>>)>,
    key: &str,
) -> (r: Option<usize>)
    ensures
        r matches Some(i) ==> i < doc.len() && lookup(doc.deep_view(), key@) == Some(
            doc.deep_view()[i as int].1,
        ),
        r is None ==> lookup(doc.deep_view(), key@) is None,
{
    let ghost dv = doc.deep_view();
    let mut i: usize = 0;
    assert(dv.skip(0) == dv);
    while i < doc.len()
        invariant
            i <= doc.len(),
            dv == doc.deep_view(),
            lookup(dv, key@) == lookup(dv.skip(i as int), key@),
        decreases doc.len() - i,
    {
        assert(dv.skip(i as int)[0] == dv[i as int]);
        if str_eq(doc[i].0.as_str(), key) {
            return Some(i);
        }
        assert(dv.skip(i as int).drop_first() == dv.skip(i + 1));
        i += 1;
    }
    None
}

fn lookup_inner(entries: &Vec<(String, Option<String>)>, key: &str) -> (r: Option<usize>)
    ensures
        r matches Some(i) ==> i < entries.len() && lookup(entries.deep_view(), key@) == Some(
            entries.deep_view()[i as int].1,
        ),
        r is None ==> lookup(entries.deep_view(), key@) is None,
{
    let ghost dv = entries.deep_view();
    let mut i: usize = 0;
    assert(dv.skip(0) == dv);
    while i < entries.len()
        invariant
            i <= entries.len(),
            dv == entries.deep_view(),
            lookup(dv, key@) == lookup(dv.skip(i as int), key@),
        decreases entries.len() - i,
    {
        assert(dv.skip(i as int)[0] == dv[i as int]);
        if str_eq(entries[i].0.as_str(), key) {
            return Some(i);
        }
        assert(dv.skip(i as int).drop_first() == dv.skip(i + 1));
        i += 1;
    }
    None
}

/// `package.name` of a manifest document, `-` replaced by `_`.
pub open spec fn crate_name_of(doc: Seq<(Seq<char>, Option<Seq<(Seq<char>, Option<Seq<char>>)>>)>) -> Option<Seq<char>> {
    match lookup(doc, "package"@) {
        Some(Some(pkg)) => match lookup(pkg, "name"@) {
            Some(Some(n)) => Some(dashes_to_underscores(n)),
            _ => None,
        },
        _ => None,
    }
}

/// `pinocchio` is a key of the `[dependencies]` table of a manifest document.
pub open spec fn depends_on_pinocchio(doc: Seq<(Seq<char>, Option<Seq<(Seq<char>, Option<Seq<char>>)>>)>) -> bool {
    match lookup(doc, "dependencies"@) {
        Some(Some(deps)) => lookup(deps, "pinocchio"@) is Some,
        _ => false,
    }
}

/// The crate name of a parsed manifest.
pub fn crate_name_in(doc: &Vec<(String, Option<Vec<(String, Option<String>)>>)>) -> (r: Option<String>)
    ensures
        option_text(r) == crate_name_of(doc.deep_view()),
{
    let p = match lookup_top(doc, "package") {
        Some(i) => i,
        None => {
            return None;
        },
    };
    let pkg = match &doc[p].1 {
        Some(t) => t,
        None => {
            return None;
        },
    };
    assert(doc.deep_view()[p as int].1 == Some(pkg.deep_view()));
    let n = match lookup_inner(pkg, "name") {
        Some(i) => i,
        None => {
            return None;
        },
    };
    match &pkg[n].1 {
        Some(name) => {
            assert(pkg.deep_view()[n as int].1 == Some(name@));
            Some(replace_dashes(name.as_str()))
        },
        None => None,
    }
}

/// Whether a parsed manifest lists `pinocchio` under `[dependencies]`.
pub fn has_pinocchio_dependency(doc: &Vec<(String, Option<Vec<(String, Option<String>)>>)>) -> (r: bool)
    ensures
        r == depends_on_pinocchio(doc.deep_view()),
{
    let d = match lookup_top(doc, "dependencies") {
        Some(i) => i,
        None => {
            return false;
        },
    };
    match &doc[d].1 {
        Some(deps) => {
            assert(doc.deep_view()[d as int].1 == Some(deps.deep_view()));
            lookup_inner(deps, "pinocchio").is_some()
        },
        None => false,
    }
}

/// The crate name from the manifest's `package.name`, `-` replaced by `_`.
pub fn read_crate_name(sources: &ProgramSources) -> (r: Option<String>)
    ensures
        option_text(r) == crate_name(option_text(sources.manifest)),
{
    let m = match &sources.manifest {
        Some(m) => m,
        None => {
            return None;
        },
    };
    match parse_toml(m.as_str()) {
        Some(doc) => crate_name_in(&doc),
        None => None,
    }
}

/// `true` exactly when the manifest parses as TOML and `pinocchio` is a key
/// of its `[dependencies]` table.
pub fn is_pinocchio_project(sources: &ProgramSources) -> (r: bool)
    ensures
        r == pinocchio_manifest(option_text(sources.manifest)),
{
    let m = match &sources.manifest {
        Some(m) => m,
        None => {
            return false;
        },
    };
    match parse_toml(m.as_str()) {
        Some(doc) => has_pinocchio_dependency(&doc),
        None => false,
    }
}

// ---------------------------------------------------------------------------
// Rendering the starter spec
// ---------------------------------------------------------------------------
/// One handler of the program, as the starter spec shows it.
pub struct PinocchioInstruction {
    pub name: String,
    pub discriminator: u8,
    pub accounts: Vec<String>,
    pub args: Vec<(String, String)>,
}

/// The mathematical value of a `PinocchioInstruction`.
pub struct InstructionSpec {
    pub name: Seq<char>,
    pub discriminator: u8,
    pub accounts: Seq<Seq<char>>,
    pub args: Seq<(Seq<char>, Seq<char>)>,
}

impl View for PinocchioInstruction {
    type V = InstructionSpec;

    open spec fn view(&self) -> InstructionSpec {
        InstructionSpec {
            name: self.name@,
            discriminator: self.discriminator,
            accounts: strings(self.accounts@),
            args: self.args.deep_view(),
        }
    }
}

/// ` (arg : Type)` for each argument.
pub open spec fn args_text(args: Seq<(Seq<char>, Seq<char>)>) -> Seq<char>
    decreases args.len(),
{
    if args.len() == 0 {
        seq![]
    } else {
        args_text(args.drop_last()) + " ("@ + args.last().0 + " : "@ + args.last().1 + ")"@
    }
}

/// The accounts comment of a handler, when it has accounts.
pub open spec fn accounts_line(accounts: Seq<Seq<char>>) -> Seq<char> {
    if accounts.len() > 0 {
        "  // accounts: "@ + join(accounts, ", "@) + "\n"@
    } else {
        seq![]
    }
}

/// The starter block of one handler.
pub open spec fn instruction_text(ix: InstructionSpec) -> Seq<char> {
    "/// `"@ + ix.name + "` (discriminator "@ + decimal(ix.discriminator as nat)
        + "): native Pinocchio handler\n/// source: src/instructions/"@ + ix.name + ".rs\n"@
        + "handler "@ + ix.name + args_text(ix.args) + " : State.Init -> State.Init {\n"@
        + accounts_line(ix.accounts) + "  // TODO: accounts { ... }\n"@
        + "  // TODO: auth <signer>\n"@ + "  // TODO: requires\n"@
        + "  // TODO: effect { ... }\n"@ + "}\n"@
}

/// Each handler's block followed by a blank line.
pub open spec fn instructions_text(ixs: Seq<InstructionSpec>) -> Seq<char>
    decreases ixs.len(),
{
    if ixs.len() == 0 {
        seq![]
    } else {
        instructions_text(ixs.drop_last()) + instruction_text(ixs.last()) + "\n"@
    }
}

/// `  | Variant` for each variant.
pub open spec fn variant_lines(vs: Seq<Seq<char>>) -> Seq<char>
    decreases vs.len(),
{
    if vs.len() == 0 {
        seq![]
    } else {
        variant_lines(vs.drop_last()) + "  | "@ + vs.last() + "\n"@
    }
}

/// The `type Error` block: the discovered variants, or a placeholder.
pub open spec fn errors_text(ev: Option<Seq<Seq<char>>>) -> Seq<char> {
    match ev {
        Some(vs) => if vs.len() > 0 {
            "// Error variants discovered in src/error.rs.\n"@ + "type Error\n"@ + variant_lines(vs)
                + "\n"@
        } else {
            "// TODO: list domain errors raised by the handlers below.\n"@
                + "type Error\n  | InvalidArgument\n\n"@
        },
        None => "// TODO: list domain errors raised by the handlers below.\n"@
            + "type Error\n  | InvalidArgument\n\n"@,
    }
}

/// The whole starter spec.
pub open spec fn spec_text(
    program_name: Seq<char>,
    ixs: Seq<InstructionSpec>,
    ev: Option<Seq<Seq<char>>>,
) -> Seq<char> {
    "// Generated by `qedgen adapt` (Pinocchio). Fill in the TODOs to make this verifiable.\n\n"@
        + "spec "@ + pascal_case(program_name) + "\n\n"@
        + "// TODO: replace with the actual lifecycle of your program.\n"@
        + "type State\n  | Init\n  | Active\n\n"@ + errors_text(ev) + instructions_text(ixs)
}

/// Appends ` (arg : Type)` for each argument.
fn push_args(s: &mut String, args: &Vec<(String, String)>)
    ensures
        final(s)@ == old(s)@ + args_text(args.deep_view()),
{
    let ghost before_args = s@;
    let ghost av = args.deep_view();
    let mut k: usize = 0;
    assert(av.take(0) =~= Seq::<(Seq<char>, Seq<char>)>::empty());
    while k < args.len()
        invariant
            k <= args.len(),
            av == args.deep_view(),
            s@ == before_args + args_text(av.take(k as int)),
        decreases args.len() - k,
    {
        assert(av.take(k + 1).drop_last() == av.take(k as int));
        assert(av.take(k + 1).last() == av[k as int]);
        s.append(" (");
        s.append(args[k].0.as_str());
        s.append(" : ");
        s.append(args[k].1.as_str());
        s.append(")");
        k += 1;
    }
    assert(av.take(args.len() as int) == av);
}

/// Appends the starter block of one handler.
#[verifier::spinoff_prover]
#[verifier::rlimit(40)]
pub fn render_instruction(s: &mut String, ix: &PinocchioInstruction)
    ensures
        final(s)@ == old(s)@ + instruction_text(ix@),
{
    s.append("/// `");
    s.append(ix.name.as_str());
    s.append("` (discriminator ");
    push_decimal(s, ix.discriminator as usize);
    s.append("): native Pinocchio handler\n/// source: src/instructions/");
    s.append(ix.name.as_str());
    s.append(".rs\n");
    s.append("handler ");
    s.append(ix.name.as_str());
    push_args(s, &ix.args);
    s.append(" : State.Init -> State.Init {\n");
    let ghost before_acc = s@;
    if ix.accounts.len() > 0 {
        s.append("  // accounts: ");
        push_joined(s, &ix.accounts, ", ");
        s.append("\n");
    } else {
        assert(before_acc + accounts_line(ix@.accounts) =~= before_acc);
    }
    s.append("  // TODO: accounts { ... }\n");
    s.append("  // TODO: auth <signer>\n");
    s.append("  // TODO: requires\n");
    s.append("  // TODO: effect { ... }\n");
    s.append("}\n");
}

pub open spec fn instruction_views(ixs: Seq<PinocchioInstruction>) -> Seq<InstructionSpec> {
    ixs.map_values(|ix: PinocchioInstruction| ix@)
}

/// The starter `.qedspec` for a program, its handlers and the variants of
/// its error enum.
pub fn render_spec(
    program_name: &str,
    instructions: &Vec<PinocchioInstruction>,
    error_variants: Option<&Vec<String>>,
) -> (r: String)
    ensures
        r@ == spec_text(
            program_name@,
            instruction_views(instructions@),
            match error_variants {
                Some(v) => Some(strings(v@)),
                None => None,
            },
        ),
{
    let mut s = String::new();
    s.append(
        "// Generated by `qedgen adapt` (Pinocchio). Fill in the TODOs to make this verifiable.\n\n",
    );
    s.append("spec ");
    let pascal = to_pascal_case(program_name);
    s.append(pascal.as_str());
    s.append("\n\n");
    s.append("// TODO: replace with the actual lifecycle of your program.\n");
    s.append("type State\n  | Init\n  | Active\n\n");
    let mut listed = false;
    if let Some(variants) = error_variants {
        if variants.len() > 0 {
            s.append("// Error variants discovered in src/error.rs.\n");
            s.append("type Error\n");
            let ghost before = s@;
            let ghost vs = strings(variants@);
            let mut k: usize = 0;
            while k < variants.len()
                invariant
                    k <= variants.len(),
                    vs == strings(variants@),
                    s@ == before + variant_lines(vs.take(k as int)),
                decreases variants.len() - k,
            {
                assert(vs.take(k + 1).drop_last() == vs.take(k as int));
                assert(vs.take(k + 1).last() == variants@[k as int]@);
                s.append("  | ");
                s.append(variants[k].as_str());
                s.append("\n");
                k += 1;
            }
            assert(vs.take(variants.len() as int) == vs);
            s.append("\n");
            listed = true;
        }
    }
    if !listed {
        s.append("// TODO: list domain errors raised by the handlers below.\n");
        s.append("type Error\n  | InvalidArgument\n\n");
    }
    let ghost before_ix = s@;
    let ghost ixs = instruction_views(instructions@);
    let mut k: usize = 0;
    while k < instructions.len()
        invariant
            k <= instructions.len(),
            ixs == instruction_views(instructions@),
            s@ == before_ix + instructions_text(ixs.take(k as int)),
        decreases instructions.len() - k,
    {
        assert(ixs.take(k + 1).drop_last() == ixs.take(k as int));
        assert(ixs.take(k + 1).last() == instructions@[k as int]@);
        render_instruction(&mut s, &instructions[k]);
        s.append("\n");
        k += 1;
    }
    assert(ixs.take(instructions.len() as int) == ixs);
    s
}

// ---------------------------------------------------------------------------
// The adapter
// ---------------------------------------------------------------------------
/// The program's name: its crate name, else the root directory's name,
/// else `program`.
pub open spec fn program_name(sources: ProgramSources) -> Seq<char> {
    match crate_name(option_text(sources.manifest)) {
        Some(n) => n,
        None => match option_text(sources.root_name) {
            Some(r) => r,
            None => "program"@,
        },
    }
}

/// The handlers of a dispatch table.
pub open spec fn instructions_for(files: Seq<SourceFile>, table: Seq<(u8, Seq<char>)>) -> Seq<
    InstructionSpec,
> {
    table.map_values(
        |e: (u8, Seq<char>)|
            InstructionSpec {
                name: handler_name(e.1),
                discriminator: e.0,
                accounts: handler_parts(files, e.1).0,
                args: handler_parts(files, e.1).1,
            },
    )
}

/// The starter spec of a program with the given dispatch table.
pub open spec fn adapted_text(sources: ProgramSources, table: Seq<(u8, Seq<char>)>) -> Seq<char> {
    spec_text(
        program_name(sources),
        instructions_for(sources.files@, table),
        first_variants(error_candidates(sources.files@)),
    )
}

/// What adapting a program gives: the starter spec built on its dispatch
/// table, or the error of reading that table.
pub open spec fn adapt_outcome(sources: ProgramSources, r: Result<Seq<char>, AdaptError>) -> bool {
    match dispatch_text(sources.files@) {
        None => r == Err::<Seq<char>, AdaptError>(AdaptError::DispatchSourceNotFound),
        Some(t) => if arms_in(t).len() == 0 {
            r == Err::<Seq<char>, AdaptError>(AdaptError::NoDispatchArms)
        } else {
            r matches Ok(text) && exists|table: Seq<(u8, Seq<char>)>|
                first_per_disc(arms_in(t), table) && text == adapted_text(sources, table)
        },
    }
}

pub open spec fn result_text(r: Result<String, AdaptError>) -> Result<Seq<char>, AdaptError> {
    match r {
        Ok(s) => Ok(s@),
        Err(e) => Err(e),
    }
}

/// The program's name.
pub fn resolve_program_name(sources: &ProgramSources) -> (r: String)
    ensures
        r@ == program_name(*sources),
{
    match read_crate_name(sources) {
        Some(n) => n,
        None => match &sources.root_name {
            Some(r) => r.clone(),
            None => String::from_str("program"),
        },
    }
}

/// Renders a starter `.qedspec` for a Pinocchio program from its dispatch,
/// handler accounts, instruction data structs and error enum.
///
/// The rendered text is returned as built: this library holds no `.qedspec`
/// parser, so the text is not parsed back before it is returned, and a text
/// that such a parser would refuse still comes back as `Ok`.
pub fn adapt(sources: &ProgramSources) -> (r: Result<String, AdaptError>)
    ensures
        adapt_outcome(*sources, result_text(r)),
{
    let program_name = resolve_program_name(sources);
    let dispatch = match parse_dispatch(sources) {
        Ok(d) => d,
        Err(e) => {
            return Err(e);
        },
    };
    let ghost table = dispatch.deep_view();
    let mut instructions: Vec<PinocchioInstruction> = Vec::new();
    let mut k: usize = 0;
    while k < dispatch.len()
        invariant
            k <= dispatch.len(),
            table == dispatch.deep_view(),
            instructions.len() == k,
            forall|m: int|
                0 <= m < k ==> #[trigger] instructions@[m]@ == instructions_for(sources.files@, table)[m],
        decreases dispatch.len() - k,
    {
        let fn_name = dispatch[k].1.as_str();
        let name = strip_process_prefix(fn_name);
        let (accounts, args) = parse_handler(sources, fn_name);
        instructions.push(
            PinocchioInstruction { name, discriminator: dispatch[k].0, accounts, args },
        );
        k += 1;
    }
    assert(instruction_views(instructions@) =~= instructions_for(sources.files@, table));
    let error_variants = discover_error_enum(sources);
    let ev = error_variants.as_ref();
    assert(match ev {
        Some(v) => Some(strings(v@)),
        None => None::<Seq<Seq<char>>>,
    } == first_variants(error_candidates(sources.files@)));
    let rendered = render_spec(program_name.as_str(), &instructions, ev);
    proof {
        let t = dispatch_text(sources.files@)->0;
        assert(first_per_disc(arms_in(t), table));
        assert(rendered@ == adapted_text(*sources, table));
    }
    Ok(rendered)
}

// ---------------------------------------------------------------------------
// Laws
// ---------------------------------------------------------------------------
/// The dispatch table of a list of arms is unique: two tables that both
/// keep, ascending, the first arm of each discriminator are equal.
pub proof fn lemma_dispatch_table_unique(
    arms: Seq<(u8, Seq<char>)>,
    a: Seq<(u8, Seq<char>)>,
    b: Seq<(u8, Seq<char>)>,
)
    requires
        first_per_disc(arms, a),
        first_per_disc(arms, b),
    ensures
        a == b,
{
    let lt = |x: (u8, Seq<char>), y: (u8, Seq<char>)| x.0 < y.0;
    assert forall|i: int, j: int| 0 <= i < j < a.len() implies lt(#[trigger] a[i], #[trigger] a[j]) by {
        assert(a[i].0 < a[j].0);
    }
    assert forall|i: int, j: int| 0 <= i < j < b.len() implies lt(#[trigger] b[i], #[trigger] b[j]) by {
        assert(b[i].0 < b[j].0);
    }
    assert forall|x: (u8, Seq<char>)| a.contains(x) implies b.contains(x) by {
        lemma_same_first(arms, a, b, x);
    }
    assert forall|x: (u8, Seq<char>)| b.contains(x) implies a.contains(x) by {
        lemma_same_first(arms, b, a, x);
    }
    crate::clustering::lemma_sorted_unique(a, b, lt);
}

proof fn lemma_same_first(
    arms: Seq<(u8, Seq<char>)>,
    a: Seq<(u8, Seq<char>)>,
    b: Seq<(u8, Seq<char>)>,
    x: (u8, Seq<char>),
)
    requires
        first_per_disc(arms, a),
        first_per_disc(arms, b),
        a.contains(x),
    ensures
        b.contains(x),
{
    let ja = choose|j: int| 0 <= j < a.len() && a[j] == x;
    assert(has_first(arms, a[ja]));
    let i = choose|i: int| first_at(arms, x, i);
    assert(disc_in(b, arms[i].0));
    let jb = choose|j: int| 0 <= j < b.len() && #[trigger] b[j].0 == arms[i].0;
    assert(has_first(arms, b[jb]));
    let i2 = choose|i2: int| first_at(arms, b[jb], i2);
    if i < i2 {
        assert(arms[i].0 != b[jb].0);
    } else if i2 < i {
        assert(arms[i2].0 != x.0);
    }
    assert(b[jb] == x);
}

/// Adapting is a function of the program's files: two outcomes allowed for
/// the same sources are equal.
pub proof fn lemma_adapt_deterministic(
    sources: ProgramSources,
    r1: Result<Seq<char>, AdaptError>,
    r2: Result<Seq<char>, AdaptError>,
)
    requires
        adapt_outcome(sources, r1),
        adapt_outcome(sources, r2),
    ensures
        r1 == r2,
{
    if let Some(t) = dispatch_text(sources.files@) {
        if arms_in(t).len() > 0 {
            let a = choose|table: Seq<(u8, Seq<char>)>|
                first_per_disc(arms_in(t), table) && r1->Ok_0 == adapted_text(sources, table);
            let b = choose|table: Seq<(u8, Seq<char>)>|
                first_per_disc(arms_in(t), table) && r2->Ok_0 == adapted_text(sources, table);
            lemma_dispatch_table_unique(arms_in(t), a, b);
        }
    }
}

/// What adapting gives is the composition of its parts: with the dispatch
/// table that reading the dispatch gives, the starter spec of the program's
/// name, of each table entry's handler (its name, discriminator, accounts
/// and data fields, in table order) and of the first error enum found; an
/// error in reading the dispatch table is the error of adapting.
pub proof fn lemma_adapt_composition(
    sources: ProgramSources,
    r: Result<Seq<char>, AdaptError>,
    d: Result<Seq<(u8, Seq<char>)>, AdaptError>,
)
    requires
        adapt_outcome(sources, r),
        dispatch_outcome(sources.files@, d),
    ensures
        d matches Ok(table) ==> r == Ok::<Seq<char>, AdaptError>(
            spec_text(
                program_name(sources),
                instructions_for(sources.files@, table),
                first_variants(error_candidates(sources.files@)),
            ),
        ),
        d matches Err(e) ==> r == Err::<Seq<char>, AdaptError>(e),
{
    if let Some(t) = dispatch_text(sources.files@) {
        if arms_in(t).len() > 0 {
            let a = choose|table: Seq<(u8, Seq<char>)>|
                first_per_disc(arms_in(t), table) && r->Ok_0 == adapted_text(sources, table);
            lemma_dispatch_table_unique(arms_in(t), a, d->Ok_0);
        }
    }
}

/// Each arm of a list of captures comes from one capture, in which its
/// target is neither `Err` nor `Ok`.
proof fn lemma_dispatch_arms_from_captures(caps: Seq<Seq<Option<Seq<char>>>>)
    ensures
        forall|i: int|
            0 <= i < dispatch_arms(caps).len() ==> exists|k: int|
                0 <= k < caps.len() && arm_of(caps[k]) == Some(#[trigger] dispatch_arms(caps)[i]),
    decreases caps.len(),
{
    if caps.len() > 0 {
        let rest = caps.drop_last();
        lemma_dispatch_arms_from_captures(rest);
        let arms = dispatch_arms(caps);
        assert forall|i: int| 0 <= i < arms.len() implies exists|k: int|
            0 <= k < caps.len() && arm_of(caps[k]) == Some(#[trigger] arms[i]) by {
            if i < dispatch_arms(rest).len() {
                assert(arms[i] == dispatch_arms(rest)[i]);
                let k = choose|k: int|
                    0 <= k < rest.len() && arm_of(rest[k]) == Some(dispatch_arms(rest)[i]);
                assert(caps[k] == rest[k]);
            } else {
                assert(arm_of(caps[caps.len() - 1]) == Some(arms[i]));
            }
        }
    }
}

/// The shape of a dispatch table: reading fails exactly when there is no
/// dispatch source or it has no arm; a table that is read is non-empty,
/// strictly ascending by discriminator, holds for each discriminator of the
/// arms its first arm in source order, and each entry is the arm of one
/// capture (a discriminator above 255 read as 255) whose target is neither
/// `Err` nor `Ok`.
pub proof fn lemma_dispatch_table_shape(
    files: Seq<SourceFile>,
    r: Result<Seq<(u8, Seq<char>)>, AdaptError>,
)
    requires
        dispatch_outcome(files, r),
    ensures
        r is Err <==> (dispatch_text(files) is None || arms_in(dispatch_text(files)->0).len() == 0),
        r matches Ok(table) ==> {
            let caps = captures_or_none(
                regex_captures(dispatch_pattern(), dispatch_text(files)->0),
            );
            &&& table.len() > 0
            &&& forall|i: int, j: int| 0 <= i < j < table.len() ==> table[i].0 < table[j].0
            &&& forall|j: int|
                0 <= j < table.len() ==> has_first(dispatch_arms(caps), #[trigger] table[j])
            &&& forall|i: int|
                0 <= i < dispatch_arms(caps).len() ==> disc_in(table, #[trigger] dispatch_arms(caps)[i].0)
            &&& forall|j: int|
                0 <= j < table.len() ==> #[trigger] table[j].1 != "Err"@ && table[j].1 != "Ok"@
                    && exists|k: int| 0 <= k < caps.len() && arm_of(caps[k]) == Some(table[j])
        },
{
    if let Ok(table) = r {
        let t = dispatch_text(files)->0;
        let caps = captures_or_none(regex_captures(dispatch_pattern(), t));
        let arms = dispatch_arms(caps);
        assert(disc_in(table, arms[0].0));
        lemma_dispatch_arms_from_captures(caps);
        assert forall|j: int| 0 <= j < table.len() implies #[trigger] table[j].1 != "Err"@
            && table[j].1 != "Ok"@ && exists|k: int|
            0 <= k < caps.len() && arm_of(caps[k]) == Some(table[j]) by {
            assert(has_first(arms, table[j]));
            let i = choose|i: int| first_at(arms, table[j], i);
            let k = choose|k: int| 0 <= k < caps.len() && arm_of(caps[k]) == Some(arms[i]);
            assert(arm_of(caps[k]) == Some(table[j]));
        }
    }
}

/// The dispatch source is the first of `src/entrypoint.rs` and `src/lib.rs`
/// that mentions `split_first`; when neither does, the first of them that is
/// not empty; else there is none. So a `src/lib.rs` that mentions
/// `split_first` wins over a non-empty `src/entrypoint.rs` that does not.
pub proof fn lemma_dispatch_source_choice(files: Seq<SourceFile>)
    ensures
        ({
            let e = read(files, "src/entrypoint.rs"@);
            let l = read(files, "src/lib.rs"@);
            let mentions = |o: Option<Seq<char>>| o is Some && contains(o->0, "split_first"@);
            let non_empty = |o: Option<Seq<char>>| o is Some && o->0.len() > 0;
            &&& mentions(e) ==> dispatch_text(files) == e
            &&& !mentions(e) && mentions(l) ==> dispatch_text(files) == l
            &&& !mentions(e) && !mentions(l) && non_empty(e) ==> dispatch_text(files) == e
            &&& !mentions(e) && !mentions(l) && !non_empty(e) && non_empty(l) ==> dispatch_text(
                files,
            ) == l
            &&& !mentions(e) && !mentions(l) && !non_empty(e) && !non_empty(l) ==> dispatch_text(
                files,
            ) is None
        }),
{
}

/// A candidate source in which no error enum with variants is found.
pub open spec fn without_variants(c: Option<Seq<char>>) -> bool {
    match c {
        Some(t) => error_variants_in(t).len() == 0,
        None => true,
    }
}

/// The search for the error enum: when `src/error.rs` exists, it alone is
/// searched; else every source file, in order. The result is the non-empty
/// variant list of the first searched source whose error enum has variants,
/// and none when no searched source has such an enum.
pub proof fn lemma_error_enum_search(files: Seq<SourceFile>)
    ensures
        file_at(files, "src/error.rs"@) matches Some(t) ==> error_candidates(files) == seq![t],
        file_at(files, "src/error.rs"@) is None ==> error_candidates(files) == files.map_values(
            |f: SourceFile| text_of(f),
        ),
        first_variants(error_candidates(files)) matches Some(v) ==> exists|i: int|
            0 <= i < error_candidates(files).len() && error_candidates(files)[i] is Some
                && error_variants_in(error_candidates(files)[i]->0) == v && v.len() > 0 && forall|
                j: int,
            | 0 <= j < i ==> without_variants(#[trigger] error_candidates(files)[j]),
        first_variants(error_candidates(files)) is None ==> forall|j: int|
            0 <= j < error_candidates(files).len() ==> without_variants(
                #[trigger] error_candidates(files)[j],
            ),
{
    lemma_first_variants(error_candidates(files));
}

proof fn lemma_first_variants(cands: Seq<Option<Seq<char>>>)
    ensures
        first_variants(cands) matches Some(v) ==> exists|i: int|
            0 <= i < cands.len() && cands[i] is Some && error_variants_in(cands[i]->0) == v
                && v.len() > 0 && forall|j: int| 0 <= j < i ==> without_variants(#[trigger] cands[j]),
        first_variants(cands) is None ==> forall|j: int|
            0 <= j < cands.len() ==> without_variants(#[trigger] cands[j]),
    decreases cands.len(),
{
    if cands.len() > 0 {
        let rest = cands.drop_first();
        lemma_first_variants(rest);
        if without_variants(cands[0]) {
            if let Some(v) = first_variants(cands) {
                let i = choose|i: int|
                    0 <= i < rest.len() && rest[i] is Some && error_variants_in(rest[i]->0) == v
                        && v.len() > 0 && forall|j: int| 0 <= j < i ==> without_variants(#[trigger] rest[j]);
                assert(cands[i + 1] == rest[i]);
                assert forall|j: int| 0 <= j < i + 1 implies without_variants(#[trigger] cands[j]) by {
                    if j > 0 {
                        assert(cands[j] == rest[j - 1]);
                    }
                }
            } else {
                assert forall|j: int| 0 <= j < cands.len() implies without_variants(#[trigger] cands[j]) by {
                    if j > 0 {
                        assert(cands[j] == rest[j - 1]);
                    }
                }
            }
        }
    }
}

/// The project name of a starter spec is split at underscores into
/// capitalised words: `pascal_case(a + "_" + b)` is `pascal_case(a)`
/// followed by `pascal_case(b)`.
pub proof fn lemma_pascal_case_split(a: Seq<char>, b: Seq<char>)
    ensures
        pascal_case(a + seq!['_'] + b) == pascal_case(a) + pascal_case(b),
{
    lemma_pascal_from_split(a, b, true);
}

proof fn lemma_pascal_from_split(a: Seq<char>, b: Seq<char>, upper: bool)
    ensures
        pascal_from(a + seq!['_'] + b, upper) == pascal_from(a, upper) + pascal_from(b, true),
    decreases a.len(),
{
    let s = a + seq!['_'] + b;
    if a.len() == 0 {
        assert(s.drop_first() =~= b);
        assert(pascal_from(a, upper) =~= Seq::<char>::empty());
        assert(pascal_from(a, upper) + pascal_from(b, true) =~= pascal_from(b, true));
    } else {
        assert(s.drop_first() =~= a.drop_first() + seq!['_'] + b);
        assert(s[0] == a[0]);
        lemma_pascal_from_split(a.drop_first(), b, true);
        lemma_pascal_from_split(a.drop_first(), b, false);
        if a[0] == '_' {
        } else if upper {
            assert(pascal_from(s, upper) =~= pascal_from(a, upper) + pascal_from(b, true));
        } else {
            assert(pascal_from(s, upper) =~= pascal_from(a, upper) + pascal_from(b, true));
        }
    }
}

/// The number of `_` in a text.
pub open spec fn underscore_count(s: Seq<char>) -> nat
    decreases s.len(),
{
    if s.len() == 0 {
        0
    } else {
        (if s[0] == '_' {
            1nat
        } else {
            0nat
        }) + underscore_count(s.drop_first())
    }
}

/// `pascal_case` drops every `_` and keeps every other char, upper-casing
/// (ASCII only) the first char of each segment: the result holds no `_`
/// and is shorter than the input by its number of `_`.
pub proof fn lemma_pascal_case_shape(s: Seq<char>)
    ensures
        !pascal_case(s).contains('_'),
        pascal_case(s).len() + underscore_count(s) == s.len(),
{
    lemma_pascal_from_shape(s, true);
}

proof fn lemma_pascal_from_shape(s: Seq<char>, upper: bool)
    ensures
        !pascal_from(s, upper).contains('_'),
        pascal_from(s, upper).len() + underscore_count(s) == s.len(),
    decreases s.len(),
{
    if s.len() > 0 {
        let rest = s.drop_first();
        lemma_pascal_from_shape(rest, true);
        lemma_pascal_from_shape(rest, false);
        if s[0] != '_' {
            let c = if upper {
                to_ascii_upper(s[0])
            } else {
                s[0]
            };
            assert(c != '_');
            let r = pascal_from(s, upper);
            let t = pascal_from(rest, false);
            assert(r == seq![c] + t);
            assert forall|i: int| 0 <= i < r.len() implies r[i] != '_' by {
                if i > 0 {
                    assert(r[i] == t[i - 1]);
                    assert(t.contains(t[i - 1]));
                }
            }
        }
    }
}

/// An error enum without variants renders as one that was not found.
pub proof fn lemma_no_variants_as_none(program_name: Seq<char>, ixs: Seq<InstructionSpec>)
    ensures
        spec_text(program_name, ixs, Some(Seq::<Seq<char>>::empty())) == spec_text(
            program_name,
            ixs,
            None,
        ),
{
}

/// A closing index found from `i` is a `}` at or after `i`.
proof fn lemma_close_index(s: Seq<char>, i: nat, depth: nat)
    ensures
        close_index(s, i, depth) matches Some(e) ==> i <= e < s.len() && s[e as int] == '}',
    decreases s.len() - i,
{
    if i < s.len() {
        if s[i as int] == '{' {
            lemma_close_index(s, i + 1, depth + 1);
        } else if s[i as int] == '}' {
            if depth > 1 {
                lemma_close_index(s, i + 1, (depth - 1) as nat);
            }
        } else {
            lemma_close_index(s, i + 1, depth);
        }
    }
}

/// Where the instruction data fields are read: nothing when the source has
/// no `#[repr(C`, no `{` after it, or that `{` has no matching `}` or an
/// empty body; else the body between the first `{` after the first
/// `#[repr(C` and its matching `}` (the `}` at which the braces opened
/// since that `{` are all closed), whose field captures give the fields in
/// source order.
pub proof fn lemma_instruction_fields_source(src: Seq<char>)
    ensures
        find(src, "#[repr(C"@) is None ==> instruction_fields_in(src) == Seq::<
            (Seq<char>, Seq<char>),
        >::empty(),
        struct_body(src) is None ==> instruction_fields_in(src) == Seq::<
            (Seq<char>, Seq<char>),
        >::empty(),
        struct_body(src) matches Some((b, e)) ==> {
            &&& find(src, "#[repr(C"@) is Some
            &&& find_from(src, "{"@, find(src, "#[repr(C"@)->0) == Some((b - 1) as nat)
            &&& 0 < b < e < src.len()
            &&& src[b - 1] == '{'
            &&& src[e as int] == '}'
            &&& close_index(src, b, 1) == Some(e)
            &&& instruction_fields_in(src) == fields_of(
                captures_or_none(regex_captures(field_pattern(), src.subrange(b as int, e as int))),
            )
        },
{
    reveal_strlit("{");
    if let Some(r) = find(src, "#[repr(C"@) {
        lemma_find_from_occurs(src, "{"@, r);
        if let Some(o) = find_from(src, "{"@, r) {
            assert(src.subrange(o as int, o + 1int) == "{"@);
            assert(src[o as int] == src.subrange(o as int, o + 1int)[0]);
            lemma_close_index(src, o + 1, 1);
        }
    }
}

// ---------------------------------------------------------------------------
// Laws on reading the sources
// ---------------------------------------------------------------------------
/// The digits of a number read back as that number.
proof fn lemma_digits_value_decimal(n: nat)
    ensures
        digits_value(decimal(n)) == n,
    decreases n,
{
    if n >= 10 {
        lemma_digits_value_decimal(n / 10);
        assert(decimal(n).drop_last() == decimal(n / 10));
        assert(decimal(n).last() == crate::text::digit_char(n % 10));
        assert((crate::text::digit_char(n % 10) as nat) == n % 10 + 48);
        assert(digits_value(decimal(n)) == digits_value(decimal(n / 10)) * 10 + n % 10);
        assert(n == (n / 10) * 10 + n % 10);
    } else {
        assert(decimal(n).drop_last() =~= Seq::<char>::empty());
        assert(digits_value(decimal(n).drop_last()) == 0);
        assert((crate::text::digit_char(n) as nat) == n + 48);
        assert(digits_value(decimal(n)) == n);
    }
}

/// Every byte, written in decimal with any number of digits, parses back
/// as that byte.
pub proof fn lemma_parse_u8_decimal(n: u8)
    ensures
        parse_u8(decimal(n as nat)) == Some(n),
{
    lemma_decimal_digits(n as nat);
    lemma_digits_value_decimal(n as nat);
    let d = decimal(n as nat);
    assert(is_ascii_digit(d[0]));
    assert(d[0] != '+');
}

/// A dispatch arm `Some((N, ..)) => f(` whose number is the decimal text of
/// a byte `N` and whose target `f` is neither `Err` nor `Ok` is read as the
/// entry `(N, f)`, whatever the number of digits of `N`.
pub proof fn lemma_dispatch_arm_read(cap: Seq<Option<Seq<char>>>, n: u8, f: Seq<char>)
    requires
        group(cap, 1) == decimal(n as nat),
        group(cap, 2) == f,
        f != "Err"@,
        f != "Ok"@,
    ensures
        arm_of(cap) == Some((n, f)),
{
    lemma_parse_u8_decimal(n);
}

/// Every capture whose arm is read gives an entry of the arms.
pub proof fn lemma_dispatch_arms_complete(caps: Seq<Seq<Option<Seq<char>>>>, k: int)
    requires
        0 <= k < caps.len(),
        arm_of(caps[k]) is Some,
    ensures
        dispatch_arms(caps).contains(arm_of(caps[k])->0),
    decreases caps.len(),
{
    let rest = caps.drop_last();
    if k < caps.len() - 1 {
        assert(rest[k] == caps[k]);
        lemma_dispatch_arms_complete(rest, k);
        let a = arm_of(caps[k])->0;
        let j = choose|j: int| 0 <= j < dispatch_arms(rest).len() && dispatch_arms(rest)[j] == a;
        assert(dispatch_arms(caps)[j] == a);
    } else {
        let arms = dispatch_arms(caps);
        assert(arms[arms.len() - 1] == arm_of(caps[k])->0);
    }
}

/// The dispatch arms are read with the pattern
/// `Some\s*\(\s*\(\s*(\d+)\s*,[^)]*\)\s*\)\s*=>\s*(\w+)\s*\(`: the number
/// is one or more digits and the target a word.
pub proof fn lemma_dispatch_pattern_text(src: Seq<char>)
    ensures
        arms_in(src) == dispatch_arms(
            captures_or_none(
                regex_captures(
                    r"Some\s*\(\s*\(\s*(\d+)\s*,[^)]*\)\s*\)\s*=>\s*(\w+)\s*\("@,
                    src,
                ),
            ),
        ),
{
}

/// The accounts of a handler are read from the first
/// `let\s*\[([^\]]*)\]\s*=\s*accounts` destructuring, as the identifiers
/// `\b([a-z][a-z0-9_]*)\b` in it: lower-case snake_case names, underscores
/// and digits included.
pub proof fn lemma_accounts_pattern_text(src: Seq<char>)
    ensures
        accounts_in(src) == ({
            let caps = captures_or_none(
                regex_captures(r"let\s*\[([^\]]*)\]\s*=\s*accounts"@, src),
            );
            if caps.len() == 0 {
                Seq::<Seq<char>>::empty()
            } else {
                account_names_of(
                    captures_or_none(regex_captures(r"\b([a-z][a-z0-9_]*)\b"@, group(caps[0], 1))),
                )
            }
        }),
{
}

/// One more identifier adds its name to the accounts, unless it begins
/// with `_` or is `remaining`, `rest`, `accounts`, `program`, `id` or
/// `mut`; a name that holds `_` further in is kept.
pub proof fn lemma_account_names_push(
    caps: Seq<Seq<Option<Seq<char>>>>,
    c: Seq<Option<Seq<char>>>,
)
    ensures
        ({
            let name = group(c, 1);
            let skipped = (name.len() > 0 && name[0] == '_') || name == "remaining"@ || name
                == "rest"@ || name == "accounts"@ || name == "program"@ || name == "id"@ || name
                == "mut"@;
            account_names_of(caps.push(c)) == if skipped {
                account_names_of(caps)
            } else {
                account_names_of(caps).push(name)
            }
        }),
{
    reveal_strlit("_");
    let name = group(c, 1);
    assert(caps.push(c).drop_last() == caps);
    if name.len() > 0 && name[0] == '_' {
        assert(name.subrange(0, 1) =~= "_"@);
    }
    if starts_with(name, "_"@) {
        assert(name[0] == name.subrange(0, 1)[0]);
    }
}

/// The instruction data fields are read from the struct body with the
/// pattern `pub\s+([a-z][a-z0-9_]*)\s*:\s*([A-Za-z][A-Za-z0-9_<>\[\];]*)`:
/// a lower-case snake_case name, underscores and digits included.
pub proof fn lemma_field_pattern_text(src: Seq<char>)
    ensures
        instruction_fields_in(src) == match struct_body(src) {
            None => Seq::<(Seq<char>, Seq<char>)>::empty(),
            Some((b, e)) => fields_of(
                captures_or_none(
                    regex_captures(
                        r"pub\s+([a-z][a-z0-9_]*)\s*:\s*([A-Za-z][A-Za-z0-9_<>\[\];]*)"@,
                        src.subrange(b as int, e as int),
                    ),
                ),
            ),
        },
{
}

/// One more field capture adds `(name, type)` to the fields, unless the
/// name begins with `_` (padding); a name that holds `_` further in is
/// kept.
pub proof fn lemma_fields_push(caps: Seq<Seq<Option<Seq<char>>>>, c: Seq<Option<Seq<char>>>)
    ensures
        fields_of(caps.push(c)) == if group(c, 1).len() > 0 && group(c, 1)[0] == '_' {
            fields_of(caps)
        } else {
            fields_of(caps).push((group(c, 1), spec_type(trim(group(c, 2)))))
        },
{
    reveal_strlit("_");
    let name = group(c, 1);
    assert(caps.push(c).drop_last() == caps);
    if name.len() > 0 && name[0] == '_' {
        assert(name.subrange(0, 1) =~= "_"@);
    }
    if starts_with(name, "_"@) {
        assert(name[0] == name.subrange(0, 1)[0]);
    }
}

/// Turning dashes into underscores keeps the length and every other char,
/// and replaces every `-`, wherever it stands.
pub proof fn lemma_dashes_to_underscores(s: Seq<char>)
    ensures
        dashes_to_underscores(s).len() == s.len(),
        forall|i: int|
            0 <= i < s.len() ==> #[trigger] dashes_to_underscores(s)[i] == if s[i] == '-' {
                '_'
            } else {
                s[i]
            },
        !dashes_to_underscores(s).contains('-'),
{
    let d = dashes_to_underscores(s);
    assert forall|i: int| 0 <= i < d.len() implies d[i] != '-' by {}
}

/// The crate name is the `package.name` text of the manifest with every
/// `-` turned into `_` and every other char kept.
pub proof fn lemma_crate_name_chars(m: Seq<char>)
    ensures
        crate_name(Some(m)) matches Some(n) ==> exists|raw: Seq<char>|
            {
                &&& toml_document(m) matches Some(doc) && lookup(doc, "package"@) matches Some(
                    Some(pkg),
                ) && lookup(pkg, "name"@) == Some(Some(raw))
                &&& n.len() == raw.len()
                &&& !n.contains('-')
                &&& forall|i: int|
                    0 <= i < raw.len() ==> #[trigger] n[i] == if raw[i] == '-' {
                        '_'
                    } else {
                        raw[i]
                    }
            },
{
    if let Some(n) = crate_name(Some(m)) {
        let doc = toml_document(m)->0;
        let pkg = lookup(doc, "package"@)->0->0;
        let raw = lookup(pkg, "name"@)->0->0;
        lemma_dashes_to_underscores(raw);
        assert(n == dashes_to_underscores(raw));
    }
}

/// The handler name drops a leading `process_` and nothing else: a name
/// with `process_` put in front gives back the name, and a name that does
/// not begin with `process_` is kept whole.
pub proof fn lemma_handler_name(x: Seq<char>)
    ensures
        handler_name("process_"@ + x) == x,
        !(x.len() >= 8 && x.take(8) == "process_"@) ==> handler_name(x) == x,
{
    reveal_strlit("process_");
    let y = "process_"@ + x;
    assert(y.subrange(0, 8) =~= "process_"@);
    assert(y.skip(8) =~= x);
    if starts_with(x, "process_"@) {
        assert(x.take(8) =~= x.subrange(0, 8));
    }
}

/// The error variants are read from the first
/// `(?m)pub\s+enum\s+\w*[Ee]rror\s*\{([^}]*)\}` of a source, as the
/// capitalised words `\b([A-Z][A-Za-z0-9]*)\b` of its body.
pub proof fn lemma_error_enum_pattern_text(src: Seq<char>)
    ensures
        error_variants_in(src) == ({
            let caps = captures_or_none(
                regex_captures(r"(?m)pub\s+enum\s+\w*[Ee]rror\s*\{([^}]*)\}"@, src),
            );
            if caps.len() == 0 {
                Seq::<Seq<char>>::empty()
            } else {
                variants_of(
                    captures_or_none(regex_captures(r"\b([A-Z][A-Za-z0-9]*)\b"@, group(caps[0], 1))),
                )
            }
        }),
{
}

/// One more capitalised word adds itself to the variants, unless every
/// char of it is an ASCII capital or digit (a constant-like name).
pub proof fn lemma_variants_push(caps: Seq<Seq<Option<Seq<char>>>>, c: Seq<Option<Seq<char>>>)
    ensures
        variants_of(caps.push(c)) == if forall|i: int|
            0 <= i < group(c, 1).len() ==> ('A' <= #[trigger] group(c, 1)[i] <= 'Z') || ('0'
                <= group(c, 1)[i] <= '9') {
            variants_of(caps)
        } else {
            variants_of(caps).push(group(c, 1))
        },
{
    assert(caps.push(c).drop_last() == caps);
}

/// `{` count minus `}` count of a text.
pub open spec fn brace_balance(t: Seq<char>) -> int
    decreases t.len(),
{
    if t.len() == 0 {
        0
    } else {
        (if t[0] == '{' {
            1int
        } else if t[0] == '}' {
            -1int
        } else {
            0int
        }) + brace_balance(t.drop_first())
    }
}

/// With `depth` braces open at `i`, the closing index is the first `}` at
/// which all of them are closed: the braces between `i` and it leave one
/// of them open, and every earlier `}` leaves at least two; when there is
/// none, no `}` of the rest closes them all.
pub proof fn lemma_close_index_balanced(s: Seq<char>, i: nat, depth: nat)
    requires
        depth >= 1,
        i <= s.len(),
    ensures
        close_index(s, i, depth) matches Some(e) ==> {
            &&& i <= e < s.len()
            &&& s[e as int] == '}'
            &&& depth + brace_balance(s.subrange(i as int, e as int)) == 1
            &&& forall|k: int|
                i <= k < e && s[k] == '}' ==> depth + brace_balance(
                    #[trigger] s.subrange(i as int, k),
                ) >= 2
        },
        close_index(s, i, depth) is None ==> forall|k: int|
            i <= k < s.len() && s[k] == '}' ==> depth + brace_balance(
                #[trigger] s.subrange(i as int, k),
            ) >= 2,
    decreases s.len() - i,
{
    if i < s.len() {
        let c = s[i as int];
        let nd: nat = if c == '{' {
            depth + 1
        } else if c == '}' {
            (depth - 1) as nat
        } else {
            depth
        };
        assert(s.subrange(i as int, i as int) =~= Seq::<char>::empty());
        assert forall|k: int| i < k <= s.len() implies #[trigger] brace_balance(
            s.subrange(i as int, k),
        ) == (if c == '{' {
            1int
        } else if c == '}' {
            -1int
        } else {
            0int
        }) + brace_balance(s.subrange(i + 1int, k)) by {
            assert(s.subrange(i as int, k).drop_first() =~= s.subrange(i + 1int, k));
        }
        if c == '}' && depth <= 1 {
        } else {
            lemma_close_index_balanced(s, i + 1, nd);
            if let Some(e) = close_index(s, i, depth) {
                assert(brace_balance(s.subrange(i as int, e as int)) == (if c == '{' {
                    1int
                } else if c == '}' {
                    -1int
                } else {
                    0int
                }) + brace_balance(s.subrange(i + 1int, e as int)));
                assert forall|k: int| i <= k < e && s[k] == '}' implies depth + brace_balance(
                    #[trigger] s.subrange(i as int, k),
                ) >= 2 by {
                    if k > i {
                        assert(brace_balance(s.subrange(i as int, k)) == (if c == '{' {
                            1int
                        } else if c == '}' {
                            -1int
                        } else {
                            0int
                        }) + brace_balance(s.subrange(i + 1int, k)));
                    }
                }
            } else {
                assert forall|k: int| i <= k < s.len() && s[k] == '}' implies depth + brace_balance(
                    #[trigger] s.subrange(i as int, k),
                ) >= 2 by {
                    if k > i {
                        assert(brace_balance(s.subrange(i as int, k)) == (if c == '{' {
                            1int
                        } else if c == '}' {
                            -1int
                        } else {
                            0int
                        }) + brace_balance(s.subrange(i + 1int, k)));
                    }
                }
            }
        }
    }
}

} // verus!
