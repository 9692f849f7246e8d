//! Character-level text operations with mathematical specifications over
//! `Seq<char>`: building strings, decimal and hex rendering, trimming,
//! searching, line splitting, joining and lexicographic order.
use vstd::prelude::*;

verus! {

broadcast use vstd::string::group_string_axioms;

// ---------------------------------------------------------------------------
// Building strings
// ---------------------------------------------------------------------------
/// `String::push`: appends one char at the end of the string.
#[verifier::external_body]
pub(crate) fn push_char(s: &mut String, c: char)
    ensures
        final(s)@ == old(s)@.push(c),
{
    s.push(c);
}

/// The chars of a string slice, in order.
pub fn chars_of(s: &str) -> (v: Vec<char>)
    ensures
        v@ == s@,
{
    let mut v: Vec<char> = Vec::new();
    for c in it: s.chars()
        invariant
            v@ == it.seq().take(it.index() as int),
    {
        v.push(c);
    }
    v
}

/// Appends `v[lo..hi]` to `s`.
pub fn push_range(s: &mut String, v: &Vec<char>, lo: usize, hi: usize)
    requires
        lo <= hi <= v.len(),
    ensures
        final(s)@ == old(s)@ + v@.subrange(lo as int, hi as int),
{
    let ghost s0 = s@;
    let mut i = lo;
    while i < hi
        invariant
            lo <= i <= hi <= v.len(),
            s@ == s0 + v@.subrange(lo as int, i as int),
        decreases hi - i,
    {
        push_char(s, v[i]);
        assert(v@.subrange(lo as int, i + 1) == v@.subrange(lo as int, i as int).push(v@[i as int]));
        i += 1;
    }
}

/// A new string holding `v[lo..hi]`.
pub fn string_from_range(v: &Vec<char>, lo: usize, hi: usize) -> (r: String)
    requires
        lo <= hi <= v.len(),
    ensures
        r@ == v@.subrange(lo as int, hi as int),
{
    let mut r = String::new();
    push_range(&mut r, v, lo, hi);
    r
}

/// Spec-level equality of two string slices, computed.
pub fn str_eq(a: &str, b: &str) -> (r: bool)
    ensures
        r == (a@ == b@),
{
    let sa = a.to_owned();
    let sb = b.to_owned();
    sa == sb
}

// ---------------------------------------------------------------------------
// Decimal and hex rendering
// ---------------------------------------------------------------------------
/// The ASCII digit for `d` (`d < 10`).
pub open spec fn digit_char(d: nat) -> char {
    (d + 48) as char
}

/// The decimal rendering of `n`, without sign or leading zeros, as `{}` prints it.
pub open spec fn decimal(n: nat) -> Seq<char>
    decreases n,
{
    if n < 10 {
        seq![digit_char(n)]
    } else {
        decimal(n / 10).push(digit_char(n % 10))
    }
}

fn digit(d: usize) -> (c: char)
    requires
        d < 10,
    ensures
        c == digit_char(d as nat),
{
    let b: u8 = 48u8 + (d as u8);
    b as char
}

/// Appends the decimal rendering of `n` to `s`.
pub fn push_decimal(s: &mut String, n: usize)
    ensures
        final(s)@ == old(s)@ + decimal(n as nat),
    decreases n,
{
    if n < 10 {
        push_char(s, digit(n));
    } else {
        push_decimal(s, n / 10);
        push_char(s, digit(n % 10));
    }
}

/// Lower-case hex digit for a nibble.
pub open spec fn hex_digit(d: nat) -> char {
    if d < 10 {
        (d + 48) as char
    } else {
        (d + 87) as char
    }
}

/// Lower-case hex rendering of bytes, two digits per byte, most significant
/// nibble first (the `{:x}` rendering of a byte array).
pub open spec fn hex_lower(bytes: Seq<u8>) -> Seq<char>
    decreases bytes.len(),
{
    if bytes.len() == 0 {
        seq![]
    } else {
        hex_lower(bytes.drop_last()) + seq![
            hex_digit((bytes.last() / 16) as nat),
            hex_digit((bytes.last() % 16) as nat),
        ]
    }
}

fn hex_nibble(d: u8) -> (c: char)
    requires
        d < 16,
    ensures
        c == hex_digit(d as nat),
{
    if d < 10 {
        (48u8 + d) as char
    } else {
        (87u8 + d) as char
    }
}

/// Appends the lower-case hex rendering of `bytes[..n]`.
pub fn push_hex_prefix(s: &mut String, bytes: &Vec<u8>, n: usize)
    requires
        n <= bytes.len(),
    ensures
        final(s)@ == old(s)@ + hex_lower(bytes@.take(n as int)),
{
    let ghost s0 = s@;
    let mut i: usize = 0;
    while i < n
        invariant
            i <= n <= bytes.len(),
            s@ == s0 + hex_lower(bytes@.take(i as int)),
        decreases n - i,
    {
        let b = bytes[i];
        push_char(s, hex_nibble(b / 16));
        push_char(s, hex_nibble(b % 16));
        assert(bytes@.take(i + 1).drop_last() == bytes@.take(i as int));
        i += 1;
    }
}

/// Hex renderings hold only `0-9a-f`, so never `-`.
pub proof fn lemma_hex_lower_no_dash(bytes: Seq<u8>)
    ensures
        !hex_lower(bytes).contains('-'),
    decreases bytes.len(),
{
    if bytes.len() > 0 {
        lemma_hex_lower_no_dash(bytes.drop_last());
        let h = hex_lower(bytes);
        let front = hex_lower(bytes.drop_last());
        assert forall|i: int| 0 <= i < h.len() implies h[i] != '-' by {
            if i < front.len() {
                assert(h[i] == front[i]);
            }
        }
    }
}

/// Decimal renderings hold only ASCII digits and at least one of them.
pub proof fn lemma_decimal_digits(n: nat)
    ensures
        decimal(n).len() >= 1,
        n >= 10 ==> decimal(n).len() >= 2,
        forall|i: int| 0 <= i < decimal(n).len() ==> is_ascii_digit(#[trigger] decimal(n)[i]),
    decreases n,
{
    if n >= 10 {
        lemma_decimal_digits(n / 10);
        let d = decimal(n);
        let front = decimal(n / 10);
        assert forall|i: int| 0 <= i < d.len() implies is_ascii_digit(#[trigger] d[i]) by {
            if i < front.len() {
                assert(d[i] == front[i]);
            }
        }
    }
}

/// Distinct numbers have distinct decimal renderings.
pub proof fn lemma_decimal_injective(a: nat, b: nat)
    ensures
        decimal(a) == decimal(b) ==> a == b,
    decreases a,
{
    lemma_decimal_digits(a);
    lemma_decimal_digits(b);
    if decimal(a) == decimal(b) {
        if a >= 10 && b >= 10 {
            assert(decimal(a / 10) =~= decimal(a).drop_last());
            assert(decimal(b / 10) =~= decimal(b).drop_last());
            lemma_decimal_injective(a / 10, b / 10);
            assert(decimal(a).last() == digit_char(a % 10));
            assert(decimal(b).last() == digit_char(b % 10));
            assert((a % 10) + 48 == digit_char(a % 10) as int);
            assert((b % 10) + 48 == digit_char(b % 10) as int);
            assert(a % 10 == b % 10);
        } else if a < 10 && b < 10 {
            assert(decimal(a)[0] == digit_char(a));
            assert(decimal(b)[0] == digit_char(b));
            assert(a + 48 == digit_char(a) as int);
            assert(b + 48 == digit_char(b) as int);
        }
    }
}

/// Two texts, each a part without `c`, then `c`, then a rest, are equal only
/// when the parts and the rests are.
pub proof fn lemma_split_at_first(a: Seq<char>, x: Seq<char>, b: Seq<char>, y: Seq<char>, c: char)
    requires
        !a.contains(c),
        !b.contains(c),
        a + seq![c] + x == b + seq![c] + y,
    ensures
        a == b,
        x == y,
{
    let l = a + seq![c] + x;
    let r = b + seq![c] + y;
    if a.len() < b.len() {
        assert(l[a.len() as int] == c);
        assert(r[a.len() as int] == b[a.len() as int]);
        assert(b.contains(b[a.len() as int]));
    } else if b.len() < a.len() {
        assert(r[b.len() as int] == c);
        assert(l[b.len() as int] == a[b.len() as int]);
        assert(a.contains(a[b.len() as int]));
    }
    assert(a =~= l.take(a.len() as int));
    assert(b =~= r.take(b.len() as int));
    assert(x =~= l.skip(a.len() + 1int));
    assert(y =~= r.skip(b.len() + 1int));
}

// ---------------------------------------------------------------------------
// Character classes
// ---------------------------------------------------------------------------
/// Unicode `White_Space` (what `char::is_whitespace` and `str::trim` use).
pub open spec fn is_white_space(c: char) -> bool {
    let u = c as u32;
    ||| 0x09 <= u <= 0x0D
    ||| u == 0x20
    ||| u == 0x85
    ||| u == 0xA0
    ||| u == 0x1680
    ||| 0x2000 <= u <= 0x200A
    ||| u == 0x2028
    ||| u == 0x2029
    ||| u == 0x202F
    ||| u == 0x205F
    ||| u == 0x3000
}

pub fn is_white_space_char(c: char) -> (r: bool)
    ensures
        r == is_white_space(c),
{
    let u = c as u32;
    (0x09 <= u && u <= 0x0D) || u == 0x20 || u == 0x85 || u == 0xA0 || u == 0x1680 || (0x2000
        <= u && u <= 0x200A) || u == 0x2028 || u == 0x2029 || u == 0x202F || u == 0x205F || u
        == 0x3000
}

pub open spec fn is_ascii_upper(c: char) -> bool {
    'A' <= c <= 'Z'
}

pub open spec fn is_ascii_lower(c: char) -> bool {
    'a' <= c <= 'z'
}

pub open spec fn is_ascii_digit(c: char) -> bool {
    '0' <= c <= '9'
}

/// `char::to_ascii_uppercase`.
pub open spec fn to_ascii_upper(c: char) -> char {
    if is_ascii_lower(c) {
        ((c as u32) - 32) as char
    } else {
        c
    }
}

pub fn to_ascii_upper_char(c: char) -> (r: char)
    ensures
        r == to_ascii_upper(c),
{
    if 'a' <= c && c <= 'z' {
        ((c as u8) - 32) as char
    } else {
        c
    }
}

// ---------------------------------------------------------------------------
// Trimming
// ---------------------------------------------------------------------------
pub open spec fn trim_start(s: Seq<char>) -> Seq<char>
    decreases s.len(),
{
    if s.len() > 0 && is_white_space(s[0]) {
        trim_start(s.drop_first())
    } else {
        s
    }
}

pub open spec fn trim_end(s: Seq<char>) -> Seq<char>
    decreases s.len(),
{
    if s.len() > 0 && is_white_space(s.last()) {
        trim_end(s.drop_last())
    } else {
        s
    }
}

/// `str::trim`: leading and trailing Unicode white space removed.
pub open spec fn trim(s: Seq<char>) -> Seq<char> {
    trim_end(trim_start(s))
}

pub fn trim_str(s: &str) -> (r: String)
    ensures
        r@ == trim(s@),
{
    let v = chars_of(s);
    let len = v.len();
    let mut a: usize = 0;
    assert(v@.subrange(0, len as int) == v@);
    while a < len && is_white_space_char(v[a])
        invariant
            a <= len == v@.len(),
            trim_start(v@) == trim_start(v@.subrange(a as int, len as int)),
        decreases len - a,
    {
        assert(v@.subrange(a as int, len as int).drop_first() == v@.subrange(a + 1, len as int));
        a += 1;
    }
    assert(trim_start(v@) == v@.subrange(a as int, len as int));
    let mut b: usize = len;
    while b > a && is_white_space_char(v[b - 1])
        invariant
            a <= b <= len == v@.len(),
            trim(v@) == trim_end(v@.subrange(a as int, b as int)),
        decreases b,
    {
        assert(v@.subrange(a as int, b as int).drop_last() == v@.subrange(a as int, b - 1));
        b -= 1;
    }
    assert(v@ == s@);
    string_from_range(&v, a, b)
}

// ---------------------------------------------------------------------------
// Searching
// ---------------------------------------------------------------------------
/// `needle` occurs in `hay` starting at char index `i`.
pub open spec fn occurs_at(hay: Seq<char>, needle: Seq<char>, i: int) -> bool {
    0 <= i && i + needle.len() <= hay.len() && hay.subrange(i, i + needle.len()) == needle
}

pub open spec fn find_from(hay: Seq<char>, needle: Seq<char>, i: nat) -> Option<nat>
    decreases hay.len() + 1 - i,
{
    if i + needle.len() > hay.len() {
        None
    } else if occurs_at(hay, needle, i as int) {
        Some(i)
    } else {
        find_from(hay, needle, i + 1)
    }
}

/// `str::find`, counted in chars: the first index at which `needle` occurs.
pub open spec fn find(hay: Seq<char>, needle: Seq<char>) -> Option<nat> {
    find_from(hay, needle, 0)
}

/// `str::contains`.
pub open spec fn contains(hay: Seq<char>, needle: Seq<char>) -> bool {
    find(hay, needle) is Some
}

fn occurs_at_exec(hay: &Vec<char>, needle: &Vec<char>, i: usize) -> (r: bool)
    requires
        i + needle.len() <= hay.len(),
    ensures
        r == occurs_at(hay@, needle@, i as int),
{
    let mut j: usize = 0;
    while j < needle.len()
        invariant
            i + needle.len() <= hay.len(),
            j <= needle.len(),
            forall|k: int| 0 <= k < j ==> hay@[i + k] == needle@[k],
        decreases needle.len() - j,
    {
        if hay[i + j] != needle[j] {
            assert(hay@.subrange(i as int, i + needle.len())[j as int] != needle@[j as int]);
            return false;
        }
        j += 1;
    }
    assert(hay@.subrange(i as int, i + needle.len()) =~= needle@);
    true
}

/// First char index at which `needle` occurs in `hay`, from index `from` on.
pub fn find_chars(hay: &Vec<char>, needle: &Vec<char>, from: usize) -> (r: Option<usize>)
    ensures
        r matches Some(i) ==> find_from(hay@, needle@, from as nat) == Some(i as nat) && i
            + needle.len() <= hay.len(),
        r is None ==> find_from(hay@, needle@, from as nat) is None,
{
    let mut i = from;
    while i <= hay.len() && needle.len() <= hay.len() - i
        invariant
            from <= i,
            find_from(hay@, needle@, from as nat) == find_from(hay@, needle@, i as nat),
        decreases hay.len() + 1 - i,
    {
        if occurs_at_exec(hay, needle, i) {
            return Some(i);
        }
        proof {
            if i == hay.len() {
                assert(hay@.subrange(i as int, i as int) =~= needle@);
            }
        }
        i += 1;
    }
    None
}

/// A found occurrence is an occurrence, at or after where the search began.
pub proof fn lemma_find_from_occurs(hay: Seq<char>, needle: Seq<char>, i: nat)
    ensures
        find_from(hay, needle, i) matches Some(o) ==> i <= o && occurs_at(hay, needle, o as int),
    decreases hay.len() + 1 - i,
{
    if i + needle.len() <= hay.len() && !occurs_at(hay, needle, i as int) {
        lemma_find_from_occurs(hay, needle, i + 1);
    }
}

/// A text that occurs somewhere is found.
pub proof fn lemma_occurs_contains(hay: Seq<char>, needle: Seq<char>, i: int)
    requires
        occurs_at(hay, needle, i),
    ensures
        contains(hay, needle),
{
    lemma_found_from(hay, needle, 0, i);
}

proof fn lemma_found_from(hay: Seq<char>, needle: Seq<char>, j: nat, i: int)
    requires
        occurs_at(hay, needle, i),
        j <= i,
    ensures
        find_from(hay, needle, j) is Some,
    decreases i - j,
{
    if !occurs_at(hay, needle, j as int) {
        lemma_found_from(hay, needle, j + 1, i);
    }
}

/// `str::contains`.
pub fn contains_str(hay: &str, needle: &str) -> (r: bool)
    ensures
        r == contains(hay@, needle@),
{
    let h = chars_of(hay);
    let n = chars_of(needle);
    find_chars(&h, &n, 0).is_some()
}

/// `needle` is a prefix of `s`.
pub open spec fn starts_with(s: Seq<char>, prefix: Seq<char>) -> bool {
    prefix.len() <= s.len() && s.subrange(0, prefix.len() as int) == prefix
}

// ---------------------------------------------------------------------------
// Lines
// ---------------------------------------------------------------------------
/// Index of the first `c` in `s`, or `s.len()` when there is none.
pub open spec fn index_of_char(s: Seq<char>, c: char) -> nat
    decreases s.len(),
{
    if s.len() == 0 {
        0
    } else if s[0] == c {
        0
    } else {
        1 + index_of_char(s.drop_first(), c)
    }
}

/// A line that ended in `\n` loses a final `\r`.
pub open spec fn strip_cr(l: Seq<char>) -> Seq<char> {
    if l.len() > 0 && l.last() == '\r' {
        l.drop_last()
    } else {
        l
    }
}

/// `str::lines`: split at `\n`, a final `\r` dropped from each line that a
/// `\n` ended, and no empty line after a final `\n`.
pub open spec fn lines(s: Seq<char>) -> Seq<Seq<char>>
    decreases s.len(),
{
    if s.len() == 0 {
        seq![]
    } else {
        let i = index_of_char(s, '\n');
        if i >= s.len() {
            seq![s]
        } else {
            seq![strip_cr(s.take(i as int))] + lines(s.skip(i + 1 as int))
        }
    }
}

proof fn lemma_index_of_char_at(s: Seq<char>, c: char, i: int)
    requires
        0 <= i <= s.len(),
        forall|k: int| 0 <= k < i ==> s[k] != c,
        i == s.len() || s[i] == c,
    ensures
        index_of_char(s, c) == i,
    decreases s.len(),
{
    if s.len() > 0 && s[0] != c {
        lemma_index_of_char_at(s.drop_first(), c, i - 1);
    }
}

/// The lines of `s`, as `str::lines` yields them.
pub fn lines_of(s: &str) -> (r: Vec<String>)
    ensures
        strings(r@) == lines(s@),
{
    let v = chars_of(s);
    let len = v.len();
    let mut out: Vec<String> = Vec::new();
    let mut start: usize = 0;
    assert(v@.skip(0) == v@);
    assert(strings(out@) =~= Seq::<Seq<char>>::empty());
    while start < len
        invariant
            start <= len == v@.len(),
            v@ == s@,
            strings(out@) + lines(v@.skip(start as int)) == lines(s@),
        decreases len - start,
    {
        let ghost rest = v@.skip(start as int);
        let mut j = start;
        while j < len && v[j] != '\n'
            invariant
                start <= j <= len == v@.len(),
                forall|k: int| start <= k < j ==> v@[k] != '\n',
            decreases len - j,
        {
            j += 1;
        }
        proof {
            lemma_index_of_char_at(rest, '\n', j - start);
        }
        if j == len {
            assert(rest == v@.subrange(start as int, len as int));
            let line = string_from_range(&v, start, len);
            let ghost before = strings(out@);
            out.push(line);
            assert(strings(out@) == before.push(line@));
            assert(v@.skip(len as int) =~= Seq::<char>::empty());
            assert(lines(v@.skip(len as int)) == Seq::<Seq<char>>::empty());
            start = len;
        } else {
            let mut e = j;
            if e > start && v[e - 1] == '\r' {
                e = e - 1;
            }
            assert(rest.take(j - start) == v@.subrange(start as int, j as int));
            let line = string_from_range(&v, start, e);
            assert(line@ == strip_cr(rest.take(j - start)));
            let ghost before = strings(out@);
            out.push(line);
            assert(strings(out@) == before.push(line@));
            assert(rest.skip(j - start + 1) == v@.skip(j + 1));
            assert(lines(rest) == seq![line@] + lines(v@.skip(j + 1)));
            assert(strings(out@) + lines(v@.skip(j + 1)) == before + lines(rest));
            start = j + 1;
        }
    }
    assert(v@.skip(len as int) =~= Seq::<char>::empty());
    out
}

// ---------------------------------------------------------------------------
// Sequences of strings
// ---------------------------------------------------------------------------
/// The char sequences of a sequence of strings.
pub open spec fn strings(v: Seq<String>) -> Seq<Seq<char>> {
    v.map_values(|s: String| s@)
}

/// `parts` joined with `sep` between consecutive parts (`[T]::join`).
pub open spec fn join(parts: Seq<Seq<char>>, sep: Seq<char>) -> Seq<char>
    decreases parts.len(),
{
    if parts.len() == 0 {
        seq![]
    } else if parts.len() == 1 {
        parts[0]
    } else {
        join(parts.drop_last(), sep) + sep + parts.last()
    }
}

/// Appends `parts` joined with `sep`.
pub fn push_joined(s: &mut String, parts: &Vec<String>, sep: &str)
    ensures
        final(s)@ == old(s)@ + join(strings(parts@), sep@),
{
    let ghost s0 = s@;
    let mut i: usize = 0;
    while i < parts.len()
        invariant
            i <= parts.len(),
            s@ == s0 + join(strings(parts@).take(i as int), sep@),
        decreases parts.len() - i,
    {
        assert(strings(parts@).take(i + 1).drop_last() == strings(parts@).take(i as int));
        assert(strings(parts@).take(i + 1).last() == parts@[i as int]@);
        if i > 0 {
            s.append(sep);
        }
        s.append(parts[i].as_str());
        i += 1;
    }
    assert(strings(parts@).take(parts.len() as int) == strings(parts@));
}

// ---------------------------------------------------------------------------
// Lines and joins undo each other
// ---------------------------------------------------------------------------
proof fn lemma_index_of_char_props(s: Seq<char>, c: char)
    ensures
        index_of_char(s, c) <= s.len(),
        forall|k: int| 0 <= k < index_of_char(s, c) ==> s[k] != c,
        index_of_char(s, c) < s.len() ==> s[index_of_char(s, c) as int] == c,
    decreases s.len(),
{
    if s.len() > 0 && s[0] != c {
        lemma_index_of_char_props(s.drop_first(), c);
        assert forall|k: int| 0 <= k < index_of_char(s, c) implies s[k] != c by {
            if k > 0 {
                assert(s[k] == s.drop_first()[k - 1]);
            }
        }
    }
}

/// `join` taken from the front: the first part, the separator, the rest.
proof fn lemma_join_front(a: Seq<char>, rest: Seq<Seq<char>>, sep: Seq<char>)
    requires
        rest.len() > 0,
    ensures
        join(seq![a] + rest, sep) == a + sep + join(rest, sep),
    decreases rest.len(),
{
    let p = seq![a] + rest;
    assert(p.drop_last() =~= seq![a] + rest.drop_last());
    assert(p.last() == rest.last());
    if rest.len() == 1 {
        assert(p.drop_last() =~= seq![a]);
        assert(join(p.drop_last(), sep) == a);
        assert(join(rest, sep) == rest[0]);
    } else {
        lemma_join_front(a, rest.drop_last(), sep);
        assert(join(p, sep) =~= a + sep + join(rest, sep));
    }
}

/// A text that ends with a newline and holds no carriage return is its lines
/// joined by newlines, plus a final newline; its lines hold neither char.
#[verifier::spinoff_prover]
pub proof fn lemma_lines_join(s: Seq<char>)
    requires
        s.len() > 0,
        s.last() == '\n',
        !s.contains('\r'),
    ensures
        lines(s).len() > 0,
        forall|k: int|
            0 <= k < lines(s).len() ==> !(#[trigger] lines(s)[k]).contains('\n') && !lines(
                s,
            )[k].contains('\r'),
        join(lines(s), "\n"@) + "\n"@ == s,
    decreases s.len(),
{
    reveal_strlit("\n");
    lemma_index_of_char_props(s, '\n');
    let i = index_of_char(s, '\n');
    let line = s.take(i as int);
    let rest = s.skip(i + 1 as int);
    assert(!line.contains('\r')) by {
        if line.contains('\r') {
            let k = choose|k: int| 0 <= k < line.len() && line[k] == '\r';
            assert(s[k] == '\r');
        }
    }
    assert(!line.contains('\n')) by {
        if line.contains('\n') {
            let k = choose|k: int| 0 <= k < line.len() && line[k] == '\n';
            assert(s[k] == '\n');
        }
    }
    assert(strip_cr(line) == line) by {
        if line.len() > 0 {
            assert(line.contains(line.last()));
        }
    }
    assert(lines(s) == seq![line] + lines(rest));
    if rest.len() == 0 {
        assert(lines(rest) =~= Seq::<Seq<char>>::empty());
        assert(lines(s) =~= seq![line]);
        assert(s =~= line + "\n"@);
    } else {
        assert(rest.last() == s.last());
        assert(!rest.contains('\r')) by {
            if rest.contains('\r') {
                let k = choose|k: int| 0 <= k < rest.len() && rest[k] == '\r';
                assert(s[k + i + 1] == '\r');
            }
        }
        lemma_lines_join(rest);
        lemma_join_front(line, lines(rest), "\n"@);
        assert(s =~= line + "\n"@ + rest);
        assert(join(lines(s), "\n"@) + "\n"@ =~= line + "\n"@ + (join(lines(rest), "\n"@)
            + "\n"@));
        assert forall|k: int| 0 <= k < lines(s).len() implies !(#[trigger] lines(s)[k]).contains(
            '\n',
        ) && !lines(s)[k].contains('\r') by {
            if k > 0 {
                assert(lines(s)[k] == lines(rest)[k - 1]);
            }
        }
    }
}

/// Lines without newlines or carriage returns, joined by newlines with a
/// final newline, split back into the same lines.
#[verifier::spinoff_prover]
pub proof fn lemma_join_lines(ls: Seq<Seq<char>>)
    requires
        ls.len() > 0,
        forall|k: int|
            0 <= k < ls.len() ==> !(#[trigger] ls[k]).contains('\n') && !ls[k].contains('\r'),
    ensures
        lines(join(ls, "\n"@) + "\n"@) == ls,
    decreases ls.len(),
{
    reveal_strlit("\n");
    let a = ls[0];
    let rest = ls.drop_first();
    assert(ls =~= seq![a] + rest);
    let t = join(ls, "\n"@) + "\n"@;
    let tail = if rest.len() == 0 {
        Seq::<char>::empty()
    } else {
        join(rest, "\n"@) + "\n"@
    };
    if rest.len() == 0 {
        assert(join(ls, "\n"@) == a);
    } else {
        lemma_join_front(a, rest, "\n"@);
    }
    assert(t =~= a + seq!['\n'] + tail);
    assert forall|k: int| 0 <= k < a.len() implies t[k] != '\n' by {
        assert(t[k] == a[k]);
        assert(a.contains(a[k]));
    }
    lemma_index_of_char_at(t, '\n', a.len() as int);
    assert(t.take(a.len() as int) =~= a);
    assert(t.skip(a.len() + 1int) =~= tail);
    assert(strip_cr(a) == a) by {
        if a.len() > 0 {
            assert(a.contains(a.last()));
        }
    }
    if rest.len() == 0 {
        assert(lines(tail) =~= Seq::<Seq<char>>::empty());
        assert(lines(t) =~= seq![a]);
    } else {
        assert forall|k: int| 0 <= k < rest.len() implies !(#[trigger] rest[k]).contains('\n')
            && !rest[k].contains('\r') by {
            assert(rest[k] == ls[k + 1]);
        }
        lemma_join_lines(rest);
        assert(lines(t) =~= seq![a] + rest);
    }
}

// ---------------------------------------------------------------------------
// Lexicographic order (the order of `str`, which is byte order of UTF-8 and
// therefore code point order)
// ---------------------------------------------------------------------------
pub open spec fn lex_lt(a: Seq<char>, b: Seq<char>) -> bool
    decreases a.len(),
{
    if a.len() == 0 {
        b.len() > 0
    } else if b.len() == 0 {
        false
    } else if a[0] < b[0] {
        true
    } else if a[0] == b[0] {
        lex_lt(a.drop_first(), b.drop_first())
    } else {
        false
    }
}

pub proof fn lemma_lex_lt_irreflexive(a: Seq<char>)
    ensures
        !lex_lt(a, a),
    decreases a.len(),
{
    if a.len() > 0 {
        lemma_lex_lt_irreflexive(a.drop_first());
    }
}

pub proof fn lemma_lex_lt_transitive(a: Seq<char>, b: Seq<char>, c: Seq<char>)
    requires
        lex_lt(a, b),
        lex_lt(b, c),
    ensures
        lex_lt(a, c),
    decreases a.len(),
{
    if a.len() > 0 && b.len() > 0 && c.len() > 0 && a[0] == b[0] && b[0] == c[0] {
        lemma_lex_lt_transitive(a.drop_first(), b.drop_first(), c.drop_first());
    }
}

pub proof fn lemma_lex_lt_total(a: Seq<char>, b: Seq<char>)
    ensures
        a == b || lex_lt(a, b) || lex_lt(b, a),
    decreases a.len(),
{
    if a.len() > 0 && b.len() > 0 {
        if a[0] == b[0] {
            lemma_lex_lt_total(a.drop_first(), b.drop_first());
            if a.drop_first() == b.drop_first() {
                assert(a =~= seq![a[0]] + a.drop_first());
                assert(b =~= seq![b[0]] + b.drop_first());
            }
        }
    } else if a.len() == 0 && b.len() == 0 {
        assert(a =~= b);
    }
}

/// `a < b` in the order of `str`.
pub fn lex_less(a: &str, b: &str) -> (r: bool)
    ensures
        r == lex_lt(a@, b@),
{
    let va = chars_of(a);
    let vb = chars_of(b);
    let mut i: usize = 0;
    assert(va@.skip(0) == va@ && vb@.skip(0) == vb@);
    while i < va.len() && i < vb.len()
        invariant
            i <= va.len(),
            i <= vb.len(),
            va@ == a@,
            vb@ == b@,
            lex_lt(va@, vb@) == lex_lt(va@.skip(i as int), vb@.skip(i as int)),
        decreases va.len() - i,
    {
        let x = va[i];
        let y = vb[i];
        assert(va@.skip(i as int)[0] == x && vb@.skip(i as int)[0] == y);
        if x < y {
            return true;
        }
        if x != y {
            return false;
        }
        assert(va@.skip(i as int).drop_first() == va@.skip(i + 1));
        assert(vb@.skip(i as int).drop_first() == vb@.skip(i + 1));
        i += 1;
    }
    assert(va@.skip(i as int).len() == 0 || vb@.skip(i as int).len() == 0);
    i == va.len() && i < vb.len()
}

} // verus!
