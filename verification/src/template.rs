//! Per-(kind, scope) rendering: the text the user sees in the interview plus
//! the `.qedspec` syntax stub that is concatenated into the emitted spec on
//! accept.
use vstd::prelude::*;

use crate::cluster::{ClusterKind, ClusterScope, ScopeSpec};
use crate::text::{
    contains, decimal, join, lemma_decimal_digits, lemma_decimal_injective, lemma_join_lines,
    lemma_lines_join, lemma_occurs_contains, lemma_split_at_first, lines, lines_of, push_decimal,
    push_joined, starts_with, strings,
};

verus! {

broadcast use vstd::string::group_string_axioms;

/// The rendered text fields of one cluster.
pub struct TemplateRender {
    pub proto_text: String,
    pub syntax: String,
    pub question: String,
    pub writes_on_accept: String,
    pub writes_on_narrow: String,
}

/// The mathematical value of a `TemplateRender`.
pub struct TemplateSpec {
    pub proto_text: Seq<char>,
    pub syntax: Seq<char>,
    pub question: Seq<char>,
    pub writes_on_accept: Seq<char>,
    pub writes_on_narrow: Seq<char>,
}

impl View for TemplateRender {
    type V = TemplateSpec;

    open spec fn view(&self) -> TemplateSpec {
        TemplateSpec {
            proto_text: self.proto_text@,
            syntax: self.syntax@,
            question: self.question@,
            writes_on_accept: self.writes_on_accept@,
            writes_on_narrow: self.writes_on_narrow@,
        }
    }
}

// ---------------------------------------------------------------------------
// Indentation
// ---------------------------------------------------------------------------
pub open spec fn indent_line(l: Seq<char>) -> Seq<char> {
    if l.len() == 0 {
        seq![]
    } else {
        "  "@ + l
    }
}

/// Each non-empty line indented by two spaces; lines joined by `\n`, with a
/// final `\n`.
pub open spec fn indented(s: Seq<char>) -> Seq<char> {
    join(lines(s).map_values(|l: Seq<char>| indent_line(l)), "\n"@) + "\n"@
}

/// Indent each non-empty line by two spaces so the suggested syntax slots
/// under a `spec ProgramName` declaration.
pub fn indent_spec(s: &str) -> (r: String)
    ensures
        r@ == indented(s@),
{
    let ls = lines_of(s);
    let mut out: Vec<String> = Vec::new();
    let mut i: usize = 0;
    while i < ls.len()
        invariant
            i <= ls.len(),
            out.len() == i,
            forall|k: int| 0 <= k < i ==> #[trigger] out@[k]@ == indent_line(ls@[k]@),
        decreases ls.len() - i,
    {
        if ls[i].as_str().is_empty() {
            out.push(String::new());
        } else {
            out.push(String::from_str("  ").concat(ls[i].as_str()));
        }
        i += 1;
    }
    assert(strings(out@) =~= lines(s@).map_values(|l: Seq<char>| indent_line(l)));
    let mut r = String::new();
    push_joined(&mut r, &out, "\n");
    r.append("\n");
    r
}

/// A line with one level of indentation taken off: the two leading chars of
/// a non-empty line removed.
pub open spec fn dedent_line(l: Seq<char>) -> Seq<char> {
    if l.len() == 0 {
        l
    } else {
        l.skip(2)
    }
}

/// Indenting a text that ends with a newline and holds no carriage return
/// gives a text that ends with a newline, whose lines are each empty or
/// begin with two spaces, and from which removing two leading chars of
/// each non-empty line gives back the text, line for line.
#[verifier::spinoff_prover]
pub proof fn lemma_indent_round_trip(s: Seq<char>)
    requires
        s.len() > 0,
        s.last() == '\n',
        !s.contains('\r'),
    ensures
        indented(s).len() > 0,
        indented(s).last() == '\n',
        lines(indented(s)).len() == lines(s).len(),
        forall|k: int|
            0 <= k < lines(indented(s)).len() ==> (#[trigger] lines(indented(s))[k]).len() == 0
                || lines(indented(s))[k].take(2) == "  "@,
        join(lines(indented(s)).map_values(|l: Seq<char>| dedent_line(l)), "\n"@) + "\n"@ == s,
{
    reveal_strlit("\n");
    reveal_strlit("  ");
    lemma_lines_join(s);
    let ls = lines(s);
    let ms = ls.map_values(|l: Seq<char>| indent_line(l));
    assert forall|k: int| 0 <= k < ms.len() implies !(#[trigger] ms[k]).contains('\n')
        && !ms[k].contains('\r') by {
        let l = ls[k];
        assert(!l.contains('\n') && !l.contains('\r'));
        if l.len() > 0 {
            assert(ms[k] =~= seq![' ', ' '] + l);
            if ms[k].contains('\n') {
                let j = choose|j: int| 0 <= j < ms[k].len() && ms[k][j] == '\n';
                assert(l[j - 2] == '\n');
            }
            if ms[k].contains('\r') {
                let j = choose|j: int| 0 <= j < ms[k].len() && ms[k][j] == '\r';
                assert(l[j - 2] == '\r');
            }
        }
    }
    lemma_join_lines(ms);
    assert(lines(indented(s)) == ms);
    assert forall|k: int| 0 <= k < ms.len() implies (#[trigger] ms[k]).len() == 0 || ms[k].take(2)
        == "  "@ by {
        if ls[k].len() > 0 {
            assert(ms[k].take(2) =~= "  "@);
        }
    }
    assert(ms.map_values(|l: Seq<char>| dedent_line(l)) =~= ls) by {
        assert forall|k: int| 0 <= k < ls.len() implies ms.map_values(
            |l: Seq<char>| dedent_line(l),
        )[k] == ls[k] by {
            if ls[k].len() > 0 {
                assert(dedent_line(ms[k]) =~= ls[k]);
            }
        }
    }
}

// ---------------------------------------------------------------------------
// Interview question
// ---------------------------------------------------------------------------
pub open spec fn scope_phrase(scope: ScopeSpec) -> Seq<char> {
    match scope {
        ScopeSpec::Program => "across the program"@,
        ScopeSpec::Handler(h) => "in handler `"@ + h + "`"@,
    }
}

pub open spec fn narrow_option(scope: ScopeSpec) -> Seq<char> {
    match scope {
        ScopeSpec::Program => "- [ ] **narrow** — emit per-handler `requires` clauses instead\n"@,
        ScopeSpec::Handler(_) => seq![],
    }
}

/// The interview markdown: header, the proto-clause text, evidence summary,
/// options as checkboxes; the `narrow` option only for program scope.
pub open spec fn question(
    label: Seq<char>,
    proto_text: Seq<char>,
    site_label: Seq<char>,
    n: nat,
    scope: ScopeSpec,
    summary: Seq<char>,
) -> Seq<char> {
    "## "@ + label + "\n\n"@ + proto_text + "\n\n"@ + decimal(n) + question_rest(
        site_label,
        scope,
        summary,
    )
}

/// What follows the count in a question: the evidence summary and the
/// options.
pub open spec fn question_rest(site_label: Seq<char>, scope: ScopeSpec, summary: Seq<char>) -> Seq<
    char,
> {
    " "@ + site_label + " site(s) "@ + scope_phrase(scope) + " imply this "@ + summary + ".\n\n"@
        + "- [ ] **accept** — emit the suggested clause into the spec\n"@ + narrow_option(scope)
        + "- [ ] **reject** — over-claim; drop with rationale below\n"@
        + "- [ ] **bug** — flag as missing enforcement (not a spec clause)\n"@ + "\n_notes:_\n\n"@
}

/// Render the markdown prompt the user sees in the interview file.
pub fn render_question(
    label: &str,
    proto_text: &str,
    site_label: &str,
    n: usize,
    scope: &ClusterScope,
    summary: &str,
) -> (r: String)
    ensures
        r@ == question(label@, proto_text@, site_label@, n as nat, scope@, summary@),
{
    let mut s = String::from_str("## ");
    s.append(label);
    s.append("\n\n");
    s.append(proto_text);
    s.append("\n\n");
    push_decimal(&mut s, n);
    s.append(" ");
    s.append(site_label);
    s.append(" site(s) ");
    match scope {
        ClusterScope::Program => s.append("across the program"),
        ClusterScope::Handler(h) => {
            s.append("in handler `");
            s.append(h.as_str());
            s.append("`");
        },
    }
    s.append(" imply this ");
    s.append(summary);
    s.append(".\n\n");
    s.append("- [ ] **accept** — emit the suggested clause into the spec\n");
    let ghost before = s@;
    match scope {
        ClusterScope::Program => s.append(
            "- [ ] **narrow** — emit per-handler `requires` clauses instead\n",
        ),
        ClusterScope::Handler(_) => {
            assert(before + narrow_option(scope@) =~= before);
        },
    }
    s.append("- [ ] **reject** — over-claim; drop with rationale below\n");
    s.append("- [ ] **bug** — flag as missing enforcement (not a spec clause)\n");
    s.append("\n_notes:_\n\n");
    s
}

// ---------------------------------------------------------------------------
// Templates shared by most kinds
// ---------------------------------------------------------------------------
/// The template of a kind without a special layout: program scope gives an
/// invariant, handler scope a per-handler precondition.
pub open spec fn with_handler(
    invariant_name: Seq<char>,
    proto_text: Seq<char>,
    program_syntax_body: Seq<char>,
    handler_syntax: Seq<char>,
    scope: ScopeSpec,
    n: nat,
    site_label: Seq<char>,
) -> TemplateSpec {
    match scope {
        ScopeSpec::Program => TemplateSpec {
            proto_text: proto_text,
            syntax: "invariant "@ + invariant_name + "\n"@ + program_syntax_body,
            question: question(
                invariant_name,
                proto_text,
                site_label,
                n,
                scope,
                "program-wide invariant"@,
            ),
            writes_on_accept: "spec.invariants"@,
            writes_on_narrow: "spec.handlers.*.requires"@,
        },
        ScopeSpec::Handler(h) => TemplateSpec {
            proto_text: "Handler `"@ + h + "`: "@ + proto_text,
            syntax: "  // (added to handler "@ + h + ")\n  "@ + handler_syntax + "\n"@,
            question: question(
                invariant_name,
                "Handler `"@ + h + "`: "@ + proto_text,
                site_label,
                n,
                scope,
                "per-handler precondition"@,
            ),
            writes_on_accept: "spec.handlers."@ + h + ".requires"@,
            writes_on_narrow: "spec.handlers."@ + h + ".requires"@,
        },
    }
}

pub fn template_with_handler(
    invariant_name: &str,
    proto_text: &str,
    program_syntax_body: &str,
    handler_syntax: &str,
    scope: &ClusterScope,
    n: usize,
    site_label: &str,
) -> (r: TemplateRender)
    ensures
        r@ == with_handler(
            invariant_name@,
            proto_text@,
            program_syntax_body@,
            handler_syntax@,
            scope@,
            n as nat,
            site_label@,
        ),
{
    match scope {
        ClusterScope::Program => {
            let proto = String::from_str(proto_text);
            let question = render_question(
                invariant_name,
                proto.as_str(),
                site_label,
                n,
                scope,
                "program-wide invariant",
            );
            TemplateRender {
                proto_text: proto,
                syntax: String::from_str("invariant ").concat(invariant_name).concat("\n").concat(
                    program_syntax_body,
                ),
                question,
                writes_on_accept: String::from_str("spec.invariants"),
                writes_on_narrow: String::from_str("spec.handlers.*.requires"),
            }
        },
        ClusterScope::Handler(h) => {
            let proto = String::from_str("Handler `").concat(h.as_str()).concat("`: ").concat(
                proto_text,
            );
            let question = render_question(
                invariant_name,
                proto.as_str(),
                site_label,
                n,
                scope,
                "per-handler precondition",
            );
            TemplateRender {
                proto_text: proto,
                syntax: String::from_str("  // (added to handler ").concat(h.as_str()).concat(
                    ")\n  ",
                ).concat(handler_syntax).concat("\n"),
                question,
                writes_on_accept: String::from_str("spec.handlers.").concat(h.as_str()).concat(
                    ".requires",
                ),
                writes_on_narrow: String::from_str("spec.handlers.").concat(h.as_str()).concat(
                    ".requires",
                ),
            }
        },
    }
}

/// The texts of a kind rendered through `with_handler`: invariant name,
/// proto-clause text, program syntax body, handler syntax, site label.
pub open spec fn kind_texts(kind: ClusterKind) -> (
    Seq<char>,
    Seq<char>,
    Seq<char>,
    Seq<char>,
    Seq<char>,
) {
    match kind {
        ClusterKind::AccountInitCheck => (
            "accounts_initialized_before_use"@,
            "Accounts are initialized before being read or written"@,
            "  forall a in accounts: a is initialized\n"@,
            "requires <account>.is_initialized else AccountNotInitialized"@,
            "_unchecked load"@,
        ),
        ClusterKind::AccountSignerCheck => (
            "authority_signs_state_change"@,
            "Authority signs every handler that mutates state"@,
            "  -- modelled per-handler via `auth <name>`; no top-level invariant emitted\n"@,
            "auth <authority>"@,
            "missing-signer"@,
        ),
        ClusterKind::AccountTypeTagCheck => (
            "account_type_tag_checked"@,
            "Accounts are loaded only after their type discriminator is checked"@,
            "  forall a in accounts: a is .<ExpectedVariant>\n"@,
            "requires <account> is .<ExpectedVariant> else InvalidAccountType"@,
            "type-tag-free deserialization"@,
        ),
        ClusterKind::AccountDistinct => (
            "distinct_account_aliases"@,
            "Distinct account roles bind to distinct AccountInfo references"@,
            "  -- emitted per-handler via `requires acc_a != acc_b`\n"@,
            "requires <acc_a> != <acc_b> else AliasingAccounts"@,
            "aliasing-borrow"@,
        ),
        ClusterKind::ArithmeticBoundPre => (
            "amount_within_domain_bound"@,
            "Amount parameters fall within a pre-checked domain (e.g. mint supply)"@,
            "  -- typically rendered as a per-handler `requires amount <= <bound>`\n"@,
            "requires amount <= <bound> else AmountTooLarge"@,
            "raw arithmetic on caller-supplied amount"@,
        ),
        ClusterKind::PdaCanonicalDerivation => (
            "canonical_pda_derivation"@,
            "PDAs use canonical (find_program_address) bumps"@,
            "  pda <name> [<seeds>]\n"@,
            "pda <name> [<seeds>]  // canonical derivation"@,
            "create_program_address"@,
        ),
        ClusterKind::PdaSeedUniqueness => (
            "pda_seed_distinguishes_users"@,
            "PDA seeds include a caller-distinguishing field"@,
            "  pda <name> [<scope>, caller.pubkey]\n"@,
            "pda <name> [<scope>, caller.pubkey]"@,
            "shared PDA seeds"@,
        ),
        ClusterKind::LifecycleOneShot => (
            "init_is_one_shot"@,
            "Init-style handlers transition the account from uninitialized to initialized"@,
            "  // declared via `handler init : State.Uninit -> State.Init`\n"@,
            "/// `init` is a one-shot State.Uninit -> State.Init transition"@,
            "init-without-is-initialized"@,
        ),
        ClusterKind::LifecycleMonotonic => (
            "lifecycle_progress_monotonic"@,
            "Lifecycle states progress monotonically (no replays)"@,
            "  // declared via the State ADT + per-handler pre/post\n"@,
            "/// State transitions monotone — no handler maps a Closed state back to Open"@,
            "re-init / replay"@,
        ),
        ClusterKind::CpiProgramPin => (
            "cpi_program_pinned"@,
            "CPI program accounts are pinned to expected program IDs"@,
            "  // declared via `transfers { … }` or `call Interface.handler(...)`\n"@,
            "/// CPI to <program>: declare via `transfers` or `call Interface.handler(...)`"@,
            "invoke_signed"@,
        ),
        ClusterKind::CpiAccountDirection => (
            "cpi_direction_explicit"@,
            "CPI source / destination / authority order is explicit"@,
            "  transfers {\n    from <src> to <dst> amount <amount> authority <auth>\n  }\n"@,
            "transfers { from <src> to <dst> amount <amount> authority <auth> }"@,
            "CPI argument order"@,
        ),
        ClusterKind::DispatchCallerEstablishesCalleeRequires => (
            "dispatcher_establishes_callee_preconditions"@,
            "Dispatchers establish callee `requires` before dispatching"@,
            "  // declared via `call Interface.handler(...)` with explicit `requires` mapping\n"@,
            "/// Dispatcher must establish each callee's `requires` (no runtime-gate trust)"@,
            "batch-mode dispatch"@,
        ),
        _ => (seq![], seq![], seq![], seq![], seq![]),
    }
}

/// The kinds with a layout of their own rather than `with_handler`.
pub open spec fn has_own_layout(kind: ClusterKind) -> bool {
    kind == ClusterKind::AccountOwnerCheck || kind == ClusterKind::ArithmeticNoOverflow
}

fn texts_of(kind: ClusterKind) -> (r: (&'static str, &'static str, &'static str, &'static str, &'static str))
    requires
        !has_own_layout(kind),
    ensures
        (r.0@, r.1@, r.2@, r.3@, r.4@) == kind_texts(kind),
{
    match kind {
        ClusterKind::AccountInitCheck => (
            "accounts_initialized_before_use",
            "Accounts are initialized before being read or written",
            "  forall a in accounts: a is initialized\n",
            "requires <account>.is_initialized else AccountNotInitialized",
            "_unchecked load",
        ),
        ClusterKind::AccountSignerCheck => (
            "authority_signs_state_change",
            "Authority signs every handler that mutates state",
            "  -- modelled per-handler via `auth <name>`; no top-level invariant emitted\n",
            "auth <authority>",
            "missing-signer",
        ),
        ClusterKind::AccountTypeTagCheck => (
            "account_type_tag_checked",
            "Accounts are loaded only after their type discriminator is checked",
            "  forall a in accounts: a is .<ExpectedVariant>\n",
            "requires <account> is .<ExpectedVariant> else InvalidAccountType",
            "type-tag-free deserialization",
        ),
        ClusterKind::AccountDistinct => (
            "distinct_account_aliases",
            "Distinct account roles bind to distinct AccountInfo references",
            "  -- emitted per-handler via `requires acc_a != acc_b`\n",
            "requires <acc_a> != <acc_b> else AliasingAccounts",
            "aliasing-borrow",
        ),
        ClusterKind::ArithmeticBoundPre => (
            "amount_within_domain_bound",
            "Amount parameters fall within a pre-checked domain (e.g. mint supply)",
            "  -- typically rendered as a per-handler `requires amount <= <bound>`\n",
            "requires amount <= <bound> else AmountTooLarge",
            "raw arithmetic on caller-supplied amount",
        ),
        ClusterKind::PdaCanonicalDerivation => (
            "canonical_pda_derivation",
            "PDAs use canonical (find_program_address) bumps",
            "  pda <name> [<seeds>]\n",
            "pda <name> [<seeds>]  // canonical derivation",
            "create_program_address",
        ),
        ClusterKind::PdaSeedUniqueness => (
            "pda_seed_distinguishes_users",
            "PDA seeds include a caller-distinguishing field",
            "  pda <name> [<scope>, caller.pubkey]\n",
            "pda <name> [<scope>, caller.pubkey]",
            "shared PDA seeds",
        ),
        ClusterKind::LifecycleOneShot => (
            "init_is_one_shot",
            "Init-style handlers transition the account from uninitialized to initialized",
            "  // declared via `handler init : State.Uninit -> State.Init`\n",
            "/// `init` is a one-shot State.Uninit -> State.Init transition",
            "init-without-is-initialized",
        ),
        ClusterKind::LifecycleMonotonic => (
            "lifecycle_progress_monotonic",
            "Lifecycle states progress monotonically (no replays)",
            "  // declared via the State ADT + per-handler pre/post\n",
            "/// State transitions monotone — no handler maps a Closed state back to Open",
            "re-init / replay",
        ),
        ClusterKind::CpiProgramPin => (
            "cpi_program_pinned",
            "CPI program accounts are pinned to expected program IDs",
            "  // declared via `transfers { … }` or `call Interface.handler(...)`\n",
            "/// CPI to <program>: declare via `transfers` or `call Interface.handler(...)`",
            "invoke_signed",
        ),
        ClusterKind::CpiAccountDirection => (
            "cpi_direction_explicit",
            "CPI source / destination / authority order is explicit",
            "  transfers {\n    from <src> to <dst> amount <amount> authority <auth>\n  }\n",
            "transfers { from <src> to <dst> amount <amount> authority <auth> }",
            "CPI argument order",
        ),
        _ => (
            "dispatcher_establishes_callee_preconditions",
            "Dispatchers establish callee `requires` before dispatching",
            "  // declared via `call Interface.handler(...)` with explicit `requires` mapping\n",
            "/// Dispatcher must establish each callee's `requires` (no runtime-gate trust)",
            "batch-mode dispatch",
        ),
    }
}

// ---------------------------------------------------------------------------
// The template of every (kind, scope)
// ---------------------------------------------------------------------------
pub open spec fn owner_check_template(scope: ScopeSpec, n: nat) -> TemplateSpec {
    match scope {
        ScopeSpec::Program => {
            let proto = "Accounts whose owner ≠ self_program_id are read-only"@;
            TemplateSpec {
                proto_text: proto,
                syntax: indented(
                    "invariant owner_locked_writes\n  forall a in accounts: a.owner != self_program_id implies preserved(a.data) and preserved(a.lamports)\n"@,
                ),
                question: question(
                    "owner_locked_writes"@,
                    proto,
                    "_unchecked load"@,
                    n,
                    scope,
                    "program-wide invariant"@,
                ),
                writes_on_accept: "spec.invariants"@,
                writes_on_narrow: "spec.handlers.*.requires"@,
            }
        },
        ScopeSpec::Handler(h) => {
            let proto = "Handler `"@ + h + "` expects account.owner == self_program_id"@;
            TemplateSpec {
                proto_text: proto,
                syntax: "  // (added to handler "@ + h
                    + ") — owner check on touched accounts\n  requires <account>.owner == self_program_id else Unauthorized\n"@,
                question: question(
                    "owner_check"@,
                    proto,
                    "_unchecked load"@,
                    n,
                    scope,
                    "per-handler precondition"@,
                ),
                writes_on_accept: "spec.handlers."@ + h + ".requires"@,
                writes_on_narrow: "spec.handlers."@ + h + ".requires"@,
            }
        },
    }
}

pub open spec fn arithmetic_template(scope: ScopeSpec, n: nat) -> TemplateSpec {
    match scope {
        ScopeSpec::Program => {
            let proto = "Token-amount and lamport arithmetic is checked (no wrap, no saturate)"@;
            TemplateSpec {
                proto_text: proto,
                syntax: "// (rendered as per-effect `+=` / `-=` checked ops in handlers below)\n"@,
                question: question(
                    "checked_arithmetic"@,
                    proto,
                    "unchecked arithmetic"@,
                    n,
                    scope,
                    "checked-by-default semantics"@,
                ),
                writes_on_accept: "spec.handlers.*.effects.op"@,
                writes_on_narrow: "spec.handlers.<H>.effects.op"@,
            }
        },
        ScopeSpec::Handler(h) => {
            let proto = "Handler `"@ + h + "` uses checked arithmetic on amounts/lamports"@;
            TemplateSpec {
                proto_text: proto,
                syntax: "  // (added to handler "@ + h
                    + ") — use `+=` / `-=` (checked) on amount fields,\n  // not `+=?` (wrapping) or `+=!` (saturating). v2.7 G3 semantics.\n"@,
                question: question(
                    "checked_arithmetic"@,
                    proto,
                    "unchecked arithmetic"@,
                    n,
                    scope,
                    "per-handler checked operators"@,
                ),
                writes_on_accept: "spec.handlers."@ + h + ".effects.op"@,
                writes_on_narrow: "spec.handlers."@ + h + ".effects.op"@,
            }
        },
    }
}

/// The rendered texts of a cluster of `kind` at `scope` with `n` findings.
pub open spec fn template(kind: ClusterKind, scope: ScopeSpec, n: nat) -> TemplateSpec {
    if kind == ClusterKind::AccountOwnerCheck {
        owner_check_template(scope, n)
    } else if kind == ClusterKind::ArithmeticNoOverflow {
        arithmetic_template(scope, n)
    } else {
        let t = kind_texts(kind);
        with_handler(t.0, t.1, t.2, t.3, scope, n, t.4)
    }
}

fn render_owner_check(scope: &ClusterScope, n: usize) -> (r: TemplateRender)
    ensures
        r@ == owner_check_template(scope@, n as nat),
{
    match scope {
        ClusterScope::Program => {
            let proto = String::from_str("Accounts whose owner ≠ self_program_id are read-only");
            let question = render_question(
                "owner_locked_writes",
                proto.as_str(),
                "_unchecked load",
                n,
                scope,
                "program-wide invariant",
            );
            TemplateRender {
                proto_text: proto,
                syntax: indent_spec(
                    "invariant owner_locked_writes\n  forall a in accounts: a.owner != self_program_id implies preserved(a.data) and preserved(a.lamports)\n",
                ),
                question,
                writes_on_accept: String::from_str("spec.invariants"),
                writes_on_narrow: String::from_str("spec.handlers.*.requires"),
            }
        },
        ClusterScope::Handler(h) => {
            let proto = String::from_str("Handler `").concat(h.as_str()).concat(
                "` expects account.owner == self_program_id",
            );
            let question = render_question(
                "owner_check",
                proto.as_str(),
                "_unchecked load",
                n,
                scope,
                "per-handler precondition",
            );
            TemplateRender {
                proto_text: proto,
                syntax: String::from_str("  // (added to handler ").concat(h.as_str()).concat(
                    ") — owner check on touched accounts\n  requires <account>.owner == self_program_id else Unauthorized\n",
                ),
                question,
                writes_on_accept: String::from_str("spec.handlers.").concat(h.as_str()).concat(
                    ".requires",
                ),
                writes_on_narrow: String::from_str("spec.handlers.").concat(h.as_str()).concat(
                    ".requires",
                ),
            }
        },
    }
}

fn render_arithmetic(scope: &ClusterScope, n: usize) -> (r: TemplateRender)
    ensures
        r@ == arithmetic_template(scope@, n as nat),
{
    match scope {
        ClusterScope::Program => {
            let proto = String::from_str(
                "Token-amount and lamport arithmetic is checked (no wrap, no saturate)",
            );
            let question = render_question(
                "checked_arithmetic",
                proto.as_str(),
                "unchecked arithmetic",
                n,
                scope,
                "checked-by-default semantics",
            );
            TemplateRender {
                proto_text: proto,
                syntax: String::from_str(
                    "// (rendered as per-effect `+=` / `-=` checked ops in handlers below)\n",
                ),
                question,
                writes_on_accept: String::from_str("spec.handlers.*.effects.op"),
                writes_on_narrow: String::from_str("spec.handlers.<H>.effects.op"),
            }
        },
        ClusterScope::Handler(h) => {
            let proto = String::from_str("Handler `").concat(h.as_str()).concat(
                "` uses checked arithmetic on amounts/lamports",
            );
            let question = render_question(
                "checked_arithmetic",
                proto.as_str(),
                "unchecked arithmetic",
                n,
                scope,
                "per-handler checked operators",
            );
            TemplateRender {
                proto_text: proto,
                syntax: String::from_str("  // (added to handler ").concat(h.as_str()).concat(
                    ") — use `+=` / `-=` (checked) on amount fields,\n  // not `+=?` (wrapping) or `+=!` (saturating). v2.7 G3 semantics.\n",
                ),
                question,
                writes_on_accept: String::from_str("spec.handlers.").concat(h.as_str()).concat(
                    ".effects.op",
                ),
                writes_on_narrow: String::from_str("spec.handlers.").concat(h.as_str()).concat(
                    ".effects.op",
                ),
            }
        },
    }
}

/// Per-(kind, scope) rendering of the interview texts.
pub fn render_template(kind: ClusterKind, scope: &ClusterScope, n: usize) -> (r: TemplateRender)
    ensures
        r@ == template(kind, scope@, n as nat),
{
    match kind {
        ClusterKind::AccountOwnerCheck => render_owner_check(scope, n),
        ClusterKind::ArithmeticNoOverflow => render_arithmetic(scope, n),
        _ => {
            let t = texts_of(kind);
            template_with_handler(t.0, t.1, t.2, t.3, scope, n, t.4)
        },
    }
}

// ---------------------------------------------------------------------------
// Laws
// ---------------------------------------------------------------------------
/// Two questions that differ only in the count are equal only when the
/// counts are.
#[verifier::spinoff_prover]
proof fn lemma_question_count(
    label: Seq<char>,
    proto_text: Seq<char>,
    site_label: Seq<char>,
    n1: nat,
    n2: nat,
    scope: ScopeSpec,
    summary: Seq<char>,
)
    ensures
        question(label, proto_text, site_label, n1, scope, summary) == question(
            label,
            proto_text,
            site_label,
            n2,
            scope,
            summary,
        ) ==> n1 == n2,
{
    let q1 = question(label, proto_text, site_label, n1, scope, summary);
    let q2 = question(label, proto_text, site_label, n2, scope, summary);
    if q1 == q2 {
        reveal_strlit(" ");
        let head = "## "@ + label + "\n\n"@ + proto_text + "\n\n"@;
        let rest = question_rest(site_label, scope, summary);
        let tail = rest.skip(1);
        assert(rest[0] == ' ');
        assert(rest =~= seq![' '] + tail);
        assert(q1 =~= head + (decimal(n1) + rest));
        assert(q2 =~= head + (decimal(n2) + rest));
        assert(q1.skip(head.len() as int) =~= decimal(n1) + seq![' '] + tail);
        assert(q2.skip(head.len() as int) =~= decimal(n2) + seq![' '] + tail);
        lemma_decimal_digits(n1);
        lemma_decimal_digits(n2);
        assert(!decimal(n1).contains(' ')) by {
            if decimal(n1).contains(' ') {
                let i = choose|i: int| 0 <= i < decimal(n1).len() && decimal(n1)[i] == ' ';
                assert(crate::text::is_ascii_digit(decimal(n1)[i]));
            }
        }
        assert(!decimal(n2).contains(' ')) by {
            if decimal(n2).contains(' ') {
                let i = choose|i: int| 0 <= i < decimal(n2).len() && decimal(n2)[i] == ' ';
                assert(crate::text::is_ascii_digit(decimal(n2)[i]));
            }
        }
        lemma_split_at_first(decimal(n1), tail, decimal(n2), tail, ' ');
        lemma_decimal_injective(n1, n2);
    }
}

/// Of the rendered texts of a cluster, only the interview question depends
/// on the finding count, and distinct counts give distinct questions.
pub proof fn lemma_template_count(kind: ClusterKind, scope: ScopeSpec, n1: nat, n2: nat)
    ensures
        template(kind, scope, n1).proto_text == template(kind, scope, n2).proto_text,
        template(kind, scope, n1).syntax == template(kind, scope, n2).syntax,
        template(kind, scope, n1).writes_on_accept == template(kind, scope, n2).writes_on_accept,
        template(kind, scope, n1).writes_on_narrow == template(kind, scope, n2).writes_on_narrow,
        template(kind, scope, n1).question == template(kind, scope, n2).question <==> n1 == n2,
{
    assert forall|
        l: Seq<char>,
        p: Seq<char>,
        st: Seq<char>,
        sc: ScopeSpec,
        sm: Seq<char>,
    | #[trigger] question(l, p, st, n1, sc, sm) == question(l, p, st, n2, sc, sm) implies n1
        == n2 by {
        lemma_question_count(l, p, st, n1, n2, sc, sm);
    }
}

/// A question holds, in this order, its `## ` header, the proto-clause
/// text and the `accept`, `reject` and `bug` checkboxes.
#[verifier::spinoff_prover]
proof fn lemma_question_holds(
    label: Seq<char>,
    proto_text: Seq<char>,
    site_label: Seq<char>,
    n: nat,
    scope: ScopeSpec,
    summary: Seq<char>,
)
    ensures
        starts_with(question(label, proto_text, site_label, n, scope, summary), "## "@),
        contains(question(label, proto_text, site_label, n, scope, summary), proto_text),
        contains(question(label, proto_text, site_label, n, scope, summary), "- [ ] **accept**"@),
        contains(question(label, proto_text, site_label, n, scope, summary), "- [ ] **reject**"@),
        contains(question(label, proto_text, site_label, n, scope, summary), "- [ ] **bug**"@),
        contains(
            question(label, proto_text, site_label, n, scope, summary),
            "\n\n"@ + decimal(n) + " "@,
        ),
{
    let q = question(label, proto_text, site_label, n, scope, summary);
    reveal_strlit("## ");
    reveal_strlit("- [ ] **accept**");
    reveal_strlit("- [ ] **reject**");
    reveal_strlit("- [ ] **bug**");
    reveal_strlit("- [ ] **accept** — emit the suggested clause into the spec\n");
    reveal_strlit("- [ ] **reject** — over-claim; drop with rationale below\n");
    reveal_strlit("- [ ] **bug** — flag as missing enforcement (not a spec clause)\n");
    let acc = "- [ ] **accept** — emit the suggested clause into the spec\n"@;
    let rej = "- [ ] **reject** — over-claim; drop with rationale below\n"@;
    let bug = "- [ ] **bug** — flag as missing enforcement (not a spec clause)\n"@;
    let head = "## "@ + label + "\n\n"@;
    let pre = head + proto_text + "\n\n"@ + decimal(n) + " "@ + site_label + " site(s) "@
        + scope_phrase(scope) + " imply this "@ + summary + ".\n\n"@;
    let pre2 = pre + acc + narrow_option(scope);
    let pre3 = pre2 + rej;
    assert(q =~= pre3 + bug + "\n_notes:_\n\n"@);
    assert(q.subrange(0, 3) =~= "## "@);
    assert(q.subrange(head.len() as int, head.len() + proto_text.len() as int) =~= proto_text);
    lemma_occurs_contains(q, proto_text, head.len() as int);
    assert(q.subrange(pre.len() as int, pre.len() + 16int) =~= "- [ ] **accept**"@);
    lemma_occurs_contains(q, "- [ ] **accept**"@, pre.len() as int);
    assert(q.subrange(pre2.len() as int, pre2.len() + 16int) =~= "- [ ] **reject**"@);
    lemma_occurs_contains(q, "- [ ] **reject**"@, pre2.len() as int);
    assert(q.subrange(pre3.len() as int, pre3.len() + 13int) =~= "- [ ] **bug**"@);
    lemma_occurs_contains(q, "- [ ] **bug**"@, pre3.len() as int);
    let at: int = head.len() + proto_text.len() as int;
    let count = "\n\n"@ + decimal(n) + " "@;
    assert(q.subrange(at, at + count.len() as int) =~= count);
    lemma_occurs_contains(q, count, at);
}

/// The interview question of every template holds its `## ` header, the
/// template's proto-clause text, the count on a paragraph of its own, and
/// the `accept`, `reject` and `bug` checkboxes; the `narrow` option is
/// offered for program scope only.
pub proof fn lemma_template_question(kind: ClusterKind, scope: ScopeSpec, n: nat)
    ensures
        starts_with(template(kind, scope, n).question, "## "@),
        contains(template(kind, scope, n).question, template(kind, scope, n).proto_text),
        contains(template(kind, scope, n).question, "- [ ] **accept**"@),
        contains(template(kind, scope, n).question, "- [ ] **reject**"@),
        contains(template(kind, scope, n).question, "- [ ] **bug**"@),
        contains(template(kind, scope, n).question, "\n\n"@ + decimal(n) + " "@),
        narrow_option(scope).len() > 0 <==> scope is Program,
{
    reveal_strlit("- [ ] **narrow** — emit per-handler `requires` clauses instead\n");
    assert forall|l: Seq<char>, p: Seq<char>, st: Seq<char>, sc: ScopeSpec, sm: Seq<char>| {
        &&& starts_with(#[trigger] question(l, p, st, n, sc, sm), "## "@)
        &&& contains(question(l, p, st, n, sc, sm), p)
        &&& contains(question(l, p, st, n, sc, sm), "- [ ] **accept**"@)
        &&& contains(question(l, p, st, n, sc, sm), "- [ ] **reject**"@)
        &&& contains(question(l, p, st, n, sc, sm), "- [ ] **bug**"@)
        &&& contains(question(l, p, st, n, sc, sm), "\n\n"@ + decimal(n) + " "@)
    } by {
        lemma_question_holds(l, p, st, n, sc, sm);
    }
}

/// In handler scope, the proto-clause text of every template begins with
/// ``Handler `h` `` and its syntax with `  // (added to handler h)`.
pub proof fn lemma_template_handler_texts(kind: ClusterKind, h: Seq<char>, n: nat)
    ensures
        starts_with(
            template(kind, ScopeSpec::Handler(h), n).proto_text,
            "Handler `"@ + h + "`"@,
        ),
        starts_with(
            template(kind, ScopeSpec::Handler(h), n).syntax,
            "  // (added to handler "@ + h + ")"@,
        ),
{
    reveal_strlit("`");
    reveal_strlit(")");
    reveal_strlit("`: ");
    reveal_strlit(")\n  ");
    reveal_strlit("` expects account.owner == self_program_id");
    reveal_strlit("` uses checked arithmetic on amounts/lamports");
    reveal_strlit(
        ") — owner check on touched accounts\n  requires <account>.owner == self_program_id else Unauthorized\n",
    );
    reveal_strlit(
        ") — use `+=` / `-=` (checked) on amount fields,\n  // not `+=?` (wrapping) or `+=!` (saturating). v2.7 G3 semantics.\n",
    );
    let t = template(kind, ScopeSpec::Handler(h), n);
    let pp = "Handler `"@ + h + "`"@;
    let sp = "  // (added to handler "@ + h + ")"@;
    assert(t.proto_text.subrange(0, pp.len() as int) =~= pp);
    assert(t.syntax.subrange(0, sp.len() as int) =~= sp);
}

/// A question begins with its `## ` header naming the invariant, then the
/// proto-clause text on a paragraph of its own, then the count.
pub proof fn lemma_question_header(
    label: Seq<char>,
    proto_text: Seq<char>,
    site_label: Seq<char>,
    n: nat,
    scope: ScopeSpec,
    summary: Seq<char>,
)
    ensures
        starts_with(
            question(label, proto_text, site_label, n, scope, summary),
            "## "@ + label + "\n\n"@ + proto_text + "\n\n"@ + decimal(n),
        ),
{
    let q = question(label, proto_text, site_label, n, scope, summary);
    let pre = "## "@ + label + "\n\n"@ + proto_text + "\n\n"@ + decimal(n);
    assert(q.subrange(0, pre.len() as int) =~= pre);
}

/// The texts of every kind, spelled out: for each kind, in program and in
/// handler scope, the proto-clause text, the suggested syntax, and the
/// question with its invariant name, site label and summary. The owner
/// check and checked arithmetic have their own layouts; every other kind
/// states a program-wide invariant or a per-handler precondition.
#[verifier::spinoff_prover]
#[verifier::rlimit(60)]
pub proof fn lemma_template_texts(h: Seq<char>, n: nat)
    ensures
        template(ClusterKind::AccountOwnerCheck, ScopeSpec::Program, n).proto_text
            == "Accounts whose owner ≠ self_program_id are read-only"@,
        template(ClusterKind::AccountOwnerCheck, ScopeSpec::Program, n).syntax == indented(
            "invariant owner_locked_writes\n  forall a in accounts: a.owner != self_program_id implies preserved(a.data) and preserved(a.lamports)\n"@,
        ),
        template(ClusterKind::AccountOwnerCheck, ScopeSpec::Program, n).question == question(
            "owner_locked_writes"@,
            "Accounts whose owner ≠ self_program_id are read-only"@,
            "_unchecked load"@,
            n,
            ScopeSpec::Program,
            "program-wide invariant"@,
        ),
        template(ClusterKind::AccountOwnerCheck, ScopeSpec::Handler(h), n).proto_text
            == "Handler `"@ + h + "` expects account.owner == self_program_id"@,
        template(ClusterKind::AccountOwnerCheck, ScopeSpec::Handler(h), n).syntax
            == "  // (added to handler "@ + h
            + ") — owner check on touched accounts\n  requires <account>.owner == self_program_id else Unauthorized\n"@,
        template(ClusterKind::AccountOwnerCheck, ScopeSpec::Handler(h), n).question == question(
            "owner_check"@,
            "Handler `"@ + h + "` expects account.owner == self_program_id"@,
            "_unchecked load"@,
            n,
            ScopeSpec::Handler(h),
            "per-handler precondition"@,
        ),
        template(ClusterKind::ArithmeticNoOverflow, ScopeSpec::Program, n).proto_text
            == "Token-amount and lamport arithmetic is checked (no wrap, no saturate)"@,
        template(ClusterKind::ArithmeticNoOverflow, ScopeSpec::Program, n).syntax
            == "// (rendered as per-effect `+=` / `-=` checked ops in handlers below)\n"@,
        template(ClusterKind::ArithmeticNoOverflow, ScopeSpec::Program, n).question == question(
            "checked_arithmetic"@,
            "Token-amount and lamport arithmetic is checked (no wrap, no saturate)"@,
            "unchecked arithmetic"@,
            n,
            ScopeSpec::Program,
            "checked-by-default semantics"@,
        ),
        template(ClusterKind::ArithmeticNoOverflow, ScopeSpec::Handler(h), n).proto_text
            == "Handler `"@ + h + "` uses checked arithmetic on amounts/lamports"@,
        template(ClusterKind::ArithmeticNoOverflow, ScopeSpec::Handler(h), n).syntax
            == "  // (added to handler "@ + h
            + ") — use `+=` / `-=` (checked) on amount fields,\n  // not `+=?` (wrapping) or `+=!` (saturating). v2.7 G3 semantics.\n"@,
        template(ClusterKind::ArithmeticNoOverflow, ScopeSpec::Handler(h), n).question == question(
            "checked_arithmetic"@,
            "Handler `"@ + h + "` uses checked arithmetic on amounts/lamports"@,
            "unchecked arithmetic"@,
            n,
            ScopeSpec::Handler(h),
            "per-handler checked operators"@,
        ),
        template(ClusterKind::AccountInitCheck, ScopeSpec::Program, n).proto_text == "Accounts are initialized before being read or written"@,
        template(ClusterKind::AccountInitCheck, ScopeSpec::Program, n).syntax == "invariant "@ + "accounts_initialized_before_use"@ + "\n"@
            + "  forall a in accounts: a is initialized\n"@,
        template(ClusterKind::AccountInitCheck, ScopeSpec::Program, n).question == question(
            "accounts_initialized_before_use"@,
            "Accounts are initialized before being read or written"@,
            "_unchecked load"@,
            n,
            ScopeSpec::Program,
            "program-wide invariant"@,
        ),
        template(ClusterKind::AccountInitCheck, ScopeSpec::Handler(h), n).proto_text == "Handler `"@ + h + "`: "@
            + "Accounts are initialized before being read or written"@,
        template(ClusterKind::AccountInitCheck, ScopeSpec::Handler(h), n).syntax == "  // (added to handler "@ + h
            + ")\n  "@ + "requires <account>.is_initialized else AccountNotInitialized"@ + "\n"@,
        template(ClusterKind::AccountInitCheck, ScopeSpec::Handler(h), n).question == question(
            "accounts_initialized_before_use"@,
            "Handler `"@ + h + "`: "@ + "Accounts are initialized before being read or written"@,
            "_unchecked load"@,
            n,
            ScopeSpec::Handler(h),
            "per-handler precondition"@,
        ),
        template(ClusterKind::AccountSignerCheck, ScopeSpec::Program, n).proto_text == "Authority signs every handler that mutates state"@,
        template(ClusterKind::AccountSignerCheck, ScopeSpec::Program, n).syntax == "invariant "@ + "authority_signs_state_change"@ + "\n"@
            + "  -- modelled per-handler via `auth <name>`; no top-level invariant emitted\n"@,
        template(ClusterKind::AccountSignerCheck, ScopeSpec::Program, n).question == question(
            "authority_signs_state_change"@,
            "Authority signs every handler that mutates state"@,
            "missing-signer"@,
            n,
            ScopeSpec::Program,
            "program-wide invariant"@,
        ),
        template(ClusterKind::AccountSignerCheck, ScopeSpec::Handler(h), n).proto_text == "Handler `"@ + h + "`: "@
            + "Authority signs every handler that mutates state"@,
        template(ClusterKind::AccountSignerCheck, ScopeSpec::Handler(h), n).syntax == "  // (added to handler "@ + h
            + ")\n  "@ + "auth <authority>"@ + "\n"@,
        template(ClusterKind::AccountSignerCheck, ScopeSpec::Handler(h), n).question == question(
            "authority_signs_state_change"@,
            "Handler `"@ + h + "`: "@ + "Authority signs every handler that mutates state"@,
            "missing-signer"@,
            n,
            ScopeSpec::Handler(h),
            "per-handler precondition"@,
        ),
        template(ClusterKind::AccountTypeTagCheck, ScopeSpec::Program, n).proto_text == "Accounts are loaded only after their type discriminator is checked"@,
        template(ClusterKind::AccountTypeTagCheck, ScopeSpec::Program, n).syntax == "invariant "@ + "account_type_tag_checked"@ + "\n"@
            + "  forall a in accounts: a is .<ExpectedVariant>\n"@,
        template(ClusterKind::AccountTypeTagCheck, ScopeSpec::Program, n).question == question(
            "account_type_tag_checked"@,
            "Accounts are loaded only after their type discriminator is checked"@,
            "type-tag-free deserialization"@,
            n,
            ScopeSpec::Program,
            "program-wide invariant"@,
        ),
        template(ClusterKind::AccountTypeTagCheck, ScopeSpec::Handler(h), n).proto_text == "Handler `"@ + h + "`: "@
            + "Accounts are loaded only after their type discriminator is checked"@,
        template(ClusterKind::AccountTypeTagCheck, ScopeSpec::Handler(h), n).syntax == "  // (added to handler "@ + h
            + ")\n  "@ + "requires <account> is .<ExpectedVariant> else InvalidAccountType"@ + "\n"@,
        template(ClusterKind::AccountTypeTagCheck, ScopeSpec::Handler(h), n).question == question(
            "account_type_tag_checked"@,
            "Handler `"@ + h + "`: "@ + "Accounts are loaded only after their type discriminator is checked"@,
            "type-tag-free deserialization"@,
            n,
            ScopeSpec::Handler(h),
            "per-handler precondition"@,
        ),
        template(ClusterKind::AccountDistinct, ScopeSpec::Program, n).proto_text == "Distinct account roles bind to distinct AccountInfo references"@,
        template(ClusterKind::AccountDistinct, ScopeSpec::Program, n).syntax == "invariant "@ + "distinct_account_aliases"@ + "\n"@
            + "  -- emitted per-handler via `requires acc_a != acc_b`\n"@,
        template(ClusterKind::AccountDistinct, ScopeSpec::Program, n).question == question(
            "distinct_account_aliases"@,
            "Distinct account roles bind to distinct AccountInfo references"@,
            "aliasing-borrow"@,
            n,
            ScopeSpec::Program,
            "program-wide invariant"@,
        ),
        template(ClusterKind::AccountDistinct, ScopeSpec::Handler(h), n).proto_text == "Handler `"@ + h + "`: "@
            + "Distinct account roles bind to distinct AccountInfo references"@,
        template(ClusterKind::AccountDistinct, ScopeSpec::Handler(h), n).syntax == "  // (added to handler "@ + h
            + ")\n  "@ + "requires <acc_a> != <acc_b> else AliasingAccounts"@ + "\n"@,
        template(ClusterKind::AccountDistinct, ScopeSpec::Handler(h), n).question == question(
            "distinct_account_aliases"@,
            "Handler `"@ + h + "`: "@ + "Distinct account roles bind to distinct AccountInfo references"@,
            "aliasing-borrow"@,
            n,
            ScopeSpec::Handler(h),
            "per-handler precondition"@,
        ),
        template(ClusterKind::ArithmeticBoundPre, ScopeSpec::Program, n).proto_text == "Amount parameters fall within a pre-checked domain (e.g. mint supply)"@,
        template(ClusterKind::ArithmeticBoundPre, ScopeSpec::Program, n).syntax == "invariant "@ + "amount_within_domain_bound"@ + "\n"@
            + "  -- typically rendered as a per-handler `requires amount <= <bound>`\n"@,
        template(ClusterKind::ArithmeticBoundPre, ScopeSpec::Program, n).question == question(
            "amount_within_domain_bound"@,
            "Amount parameters fall within a pre-checked domain (e.g. mint supply)"@,
            "raw arithmetic on caller-supplied amount"@,
            n,
            ScopeSpec::Program,
            "program-wide invariant"@,
        ),
        template(ClusterKind::ArithmeticBoundPre, ScopeSpec::Handler(h), n).proto_text == "Handler `"@ + h + "`: "@
            + "Amount parameters fall within a pre-checked domain (e.g. mint supply)"@,
        template(ClusterKind::ArithmeticBoundPre, ScopeSpec::Handler(h), n).syntax == "  // (added to handler "@ + h
            + ")\n  "@ + "requires amount <= <bound> else AmountTooLarge"@ + "\n"@,
        template(ClusterKind::ArithmeticBoundPre, ScopeSpec::Handler(h), n).question == question(
            "amount_within_domain_bound"@,
            "Handler `"@ + h + "`: "@ + "Amount parameters fall within a pre-checked domain (e.g. mint supply)"@,
            "raw arithmetic on caller-supplied amount"@,
            n,
            ScopeSpec::Handler(h),
            "per-handler precondition"@,
        ),
        template(ClusterKind::PdaCanonicalDerivation, ScopeSpec::Program, n).proto_text == "PDAs use canonical (find_program_address) bumps"@,
        template(ClusterKind::PdaCanonicalDerivation, ScopeSpec::Program, n).syntax == "invariant "@ + "canonical_pda_derivation"@ + "\n"@
            + "  pda <name> [<seeds>]\n"@,
        template(ClusterKind::PdaCanonicalDerivation, ScopeSpec::Program, n).question == question(
            "canonical_pda_derivation"@,
            "PDAs use canonical (find_program_address) bumps"@,
            "create_program_address"@,
            n,
            ScopeSpec::Program,
            "program-wide invariant"@,
        ),
        template(ClusterKind::PdaCanonicalDerivation, ScopeSpec::Handler(h), n).proto_text == "Handler `"@ + h + "`: "@
            + "PDAs use canonical (find_program_address) bumps"@,
        template(ClusterKind::PdaCanonicalDerivation, ScopeSpec::Handler(h), n).syntax == "  // (added to handler "@ + h
            + ")\n  "@ + "pda <name> [<seeds>]  // canonical derivation"@ + "\n"@,
        template(ClusterKind::PdaCanonicalDerivation, ScopeSpec::Handler(h), n).question == question(
            "canonical_pda_derivation"@,
            "Handler `"@ + h + "`: "@ + "PDAs use canonical (find_program_address) bumps"@,
            "create_program_address"@,
            n,
            ScopeSpec::Handler(h),
            "per-handler precondition"@,
        ),
        template(ClusterKind::PdaSeedUniqueness, ScopeSpec::Program, n).proto_text == "PDA seeds include a caller-distinguishing field"@,
        template(ClusterKind::PdaSeedUniqueness, ScopeSpec::Program, n).syntax == "invariant "@ + "pda_seed_distinguishes_users"@ + "\n"@
            + "  pda <name> [<scope>, caller.pubkey]\n"@,
        template(ClusterKind::PdaSeedUniqueness, ScopeSpec::Program, n).question == question(
            "pda_seed_distinguishes_users"@,
            "PDA seeds include a caller-distinguishing field"@,
            "shared PDA seeds"@,
            n,
            ScopeSpec::Program,
            "program-wide invariant"@,
        ),
        template(ClusterKind::PdaSeedUniqueness, ScopeSpec::Handler(h), n).proto_text == "Handler `"@ + h + "`: "@
            + "PDA seeds include a caller-distinguishing field"@,
        template(ClusterKind::PdaSeedUniqueness, ScopeSpec::Handler(h), n).syntax == "  // (added to handler "@ + h
            + ")\n  "@ + "pda <name> [<scope>, caller.pubkey]"@ + "\n"@,
        template(ClusterKind::PdaSeedUniqueness, ScopeSpec::Handler(h), n).question == question(
            "pda_seed_distinguishes_users"@,
            "Handler `"@ + h + "`: "@ + "PDA seeds include a caller-distinguishing field"@,
            "shared PDA seeds"@,
            n,
            ScopeSpec::Handler(h),
            "per-handler precondition"@,
        ),
        template(ClusterKind::LifecycleOneShot, ScopeSpec::Program, n).proto_text == "Init-style handlers transition the account from uninitialized to initialized"@,
        template(ClusterKind::LifecycleOneShot, ScopeSpec::Program, n).syntax == "invariant "@ + "init_is_one_shot"@ + "\n"@
            + "  // declared via `handler init : State.Uninit -> State.Init`\n"@,
        template(ClusterKind::LifecycleOneShot, ScopeSpec::Program, n).question == question(
            "init_is_one_shot"@,
            "Init-style handlers transition the account from uninitialized to initialized"@,
            "init-without-is-initialized"@,
            n,
            ScopeSpec::Program,
            "program-wide invariant"@,
        ),
        template(ClusterKind::LifecycleOneShot, ScopeSpec::Handler(h), n).proto_text == "Handler `"@ + h + "`: "@
            + "Init-style handlers transition the account from uninitialized to initialized"@,
        template(ClusterKind::LifecycleOneShot, ScopeSpec::Handler(h), n).syntax == "  // (added to handler "@ + h
            + ")\n  "@ + "/// `init` is a one-shot State.Uninit -> State.Init transition"@ + "\n"@,
        template(ClusterKind::LifecycleOneShot, ScopeSpec::Handler(h), n).question == question(
            "init_is_one_shot"@,
            "Handler `"@ + h + "`: "@ + "Init-style handlers transition the account from uninitialized to initialized"@,
            "init-without-is-initialized"@,
            n,
            ScopeSpec::Handler(h),
            "per-handler precondition"@,
        ),
        template(ClusterKind::LifecycleMonotonic, ScopeSpec::Program, n).proto_text == "Lifecycle states progress monotonically (no replays)"@,
        template(ClusterKind::LifecycleMonotonic, ScopeSpec::Program, n).syntax == "invariant "@ + "lifecycle_progress_monotonic"@ + "\n"@
            + "  // declared via the State ADT + per-handler pre/post\n"@,
        template(ClusterKind::LifecycleMonotonic, ScopeSpec::Program, n).question == question(
            "lifecycle_progress_monotonic"@,
            "Lifecycle states progress monotonically (no replays)"@,
            "re-init / replay"@,
            n,
            ScopeSpec::Program,
            "program-wide invariant"@,
        ),
        template(ClusterKind::LifecycleMonotonic, ScopeSpec::Handler(h), n).proto_text == "Handler `"@ + h + "`: "@
            + "Lifecycle states progress monotonically (no replays)"@,
        template(ClusterKind::LifecycleMonotonic, ScopeSpec::Handler(h), n).syntax == "  // (added to handler "@ + h
            + ")\n  "@ + "/// State transitions monotone — no handler maps a Closed state back to Open"@ + "\n"@,
        template(ClusterKind::LifecycleMonotonic, ScopeSpec::Handler(h), n).question == question(
            "lifecycle_progress_monotonic"@,
            "Handler `"@ + h + "`: "@ + "Lifecycle states progress monotonically (no replays)"@,
            "re-init / replay"@,
            n,
            ScopeSpec::Handler(h),
            "per-handler precondition"@,
        ),
        template(ClusterKind::CpiProgramPin, ScopeSpec::Program, n).proto_text == "CPI program accounts are pinned to expected program IDs"@,
        template(ClusterKind::CpiProgramPin, ScopeSpec::Program, n).syntax == "invariant "@ + "cpi_program_pinned"@ + "\n"@
            + "  // declared via `transfers { … }` or `call Interface.handler(...)`\n"@,
        template(ClusterKind::CpiProgramPin, ScopeSpec::Program, n).question == question(
            "cpi_program_pinned"@,
            "CPI program accounts are pinned to expected program IDs"@,
            "invoke_signed"@,
            n,
            ScopeSpec::Program,
            "program-wide invariant"@,
        ),
        template(ClusterKind::CpiProgramPin, ScopeSpec::Handler(h), n).proto_text == "Handler `"@ + h + "`: "@
            + "CPI program accounts are pinned to expected program IDs"@,
        template(ClusterKind::CpiProgramPin, ScopeSpec::Handler(h), n).syntax == "  // (added to handler "@ + h
            + ")\n  "@ + "/// CPI to <program>: declare via `transfers` or `call Interface.handler(...)`"@ + "\n"@,
        template(ClusterKind::CpiProgramPin, ScopeSpec::Handler(h), n).question == question(
            "cpi_program_pinned"@,
            "Handler `"@ + h + "`: "@ + "CPI program accounts are pinned to expected program IDs"@,
            "invoke_signed"@,
            n,
            ScopeSpec::Handler(h),
            "per-handler precondition"@,
        ),
        template(ClusterKind::CpiAccountDirection, ScopeSpec::Program, n).proto_text == "CPI source / destination / authority order is explicit"@,
        template(ClusterKind::CpiAccountDirection, ScopeSpec::Program, n).syntax == "invariant "@ + "cpi_direction_explicit"@ + "\n"@
            + "  transfers {\n    from <src> to <dst> amount <amount> authority <auth>\n  }\n"@,
        template(ClusterKind::CpiAccountDirection, ScopeSpec::Program, n).question == question(
            "cpi_direction_explicit"@,
            "CPI source / destination / authority order is explicit"@,
            "CPI argument order"@,
            n,
            ScopeSpec::Program,
            "program-wide invariant"@,
        ),
        template(ClusterKind::CpiAccountDirection, ScopeSpec::Handler(h), n).proto_text == "Handler `"@ + h + "`: "@
            + "CPI source / destination / authority order is explicit"@,
        template(ClusterKind::CpiAccountDirection, ScopeSpec::Handler(h), n).syntax == "  // (added to handler "@ + h
            + ")\n  "@ + "transfers { from <src> to <dst> amount <amount> authority <auth> }"@ + "\n"@,
        template(ClusterKind::CpiAccountDirection, ScopeSpec::Handler(h), n).question == question(
            "cpi_direction_explicit"@,
            "Handler `"@ + h + "`: "@ + "CPI source / destination / authority order is explicit"@,
            "CPI argument order"@,
            n,
            ScopeSpec::Handler(h),
            "per-handler precondition"@,
        ),
        template(ClusterKind::DispatchCallerEstablishesCalleeRequires, ScopeSpec::Program, n).proto_text == "Dispatchers establish callee `requires` before dispatching"@,
        template(ClusterKind::DispatchCallerEstablishesCalleeRequires, ScopeSpec::Program, n).syntax == "invariant "@ + "dispatcher_establishes_callee_preconditions"@ + "\n"@
            + "  // declared via `call Interface.handler(...)` with explicit `requires` mapping\n"@,
        template(ClusterKind::DispatchCallerEstablishesCalleeRequires, ScopeSpec::Program, n).question == question(
            "dispatcher_establishes_callee_preconditions"@,
            "Dispatchers establish callee `requires` before dispatching"@,
            "batch-mode dispatch"@,
            n,
            ScopeSpec::Program,
            "program-wide invariant"@,
        ),
        template(ClusterKind::DispatchCallerEstablishesCalleeRequires, ScopeSpec::Handler(h), n).proto_text == "Handler `"@ + h + "`: "@
            + "Dispatchers establish callee `requires` before dispatching"@,
        template(ClusterKind::DispatchCallerEstablishesCalleeRequires, ScopeSpec::Handler(h), n).syntax == "  // (added to handler "@ + h
            + ")\n  "@ + "/// Dispatcher must establish each callee's `requires` (no runtime-gate trust)"@ + "\n"@,
        template(ClusterKind::DispatchCallerEstablishesCalleeRequires, ScopeSpec::Handler(h), n).question == question(
            "dispatcher_establishes_callee_preconditions"@,
            "Handler `"@ + h + "`: "@ + "Dispatchers establish callee `requires` before dispatching"@,
            "batch-mode dispatch"@,
            n,
            ScopeSpec::Handler(h),
            "per-handler precondition"@,
        ),
{
}

} // verus!
