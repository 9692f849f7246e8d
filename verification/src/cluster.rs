//! Cluster schema for the scaffold-to-spec interview.
//!
//! A cluster is a group of findings that lift to a single candidate spec
//! clause: the unit the auditor asks the user about. The vocabulary is
//! runtime-agnostic: `ClusterKind` is the same set of variants for every
//! runtime.
use vstd::prelude::*;

use crate::outside::{sha256, sha256_digest};
use crate::text::{hex_lower, lemma_hex_lower_no_dash, lemma_split_at_first, push_hex_prefix};

verus! {

broadcast use vstd::string::group_string_axioms;

/// One ratification unit: a candidate spec clause derived from one or more
/// findings, presented to the user as a single interview question.
#[derive(Debug, Clone)]
pub struct Cluster {
    /// Deterministic identifier computed from `(kind, scope)` alone.
    pub id: String,
    /// Which spec-clause family this cluster belongs to.
    pub kind: ClusterKind,
    /// Where the clause applies: program-wide invariant or per-handler.
    pub scope: ClusterScope,
    /// The distinct finding ids this cluster aggregates, in ascending order.
    pub finding_ids: Vec<String>,
    /// Number of distinct findings rolled into this cluster.
    pub evidence_count: usize,
    /// How sure we are the clause is real.
    pub confidence: Confidence,
    /// Human-readable summary of the candidate clause.
    pub proto_clause_text: String,
    /// `.qedspec` syntax for the accepted clause.
    pub suggested_syntax: String,
    /// Markdown for the interview prompts file.
    pub question_md: String,
    /// Routing keys for the four interview outcomes.
    pub writes_on_accept: String,
    pub writes_on_narrow: String,
    pub writes_on_reject: String,
    pub writes_on_bug: String,
}

/// The production cluster kinds, the same vocabulary across all runtimes.
#[derive(Debug, Clone, Copy, PartialEq, Eq, Hash, PartialOrd, Ord, Structural)]
pub enum ClusterKind {
    /// `requires acc.owner == self_program_id` or program-wide
    /// `invariant owner_locked_writes`.
    AccountOwnerCheck,
    /// `requires acc.is_initialized`.
    AccountInitCheck,
    /// Handler `auth X` clause or `permissionless` marker.
    AccountSignerCheck,
    /// `requires acc is .Variant` discriminator / type-tag check.
    AccountTypeTagCheck,
    /// `requires acc_a != acc_b`: aliasing prevention.
    AccountDistinct,
    /// Effects use checked `+=` rather than wrapping `+=?`.
    ArithmeticNoOverflow,
    /// `requires amount <= bound`: caller-side value bound.
    ArithmeticBoundPre,
    /// `pda name [seeds]` with bump enforcement.
    PdaCanonicalDerivation,
    /// Seed list includes a distinguishing field (e.g. caller pubkey).
    PdaSeedUniqueness,
    /// Handler `State.Uninit -> State.Init` transition.
    LifecycleOneShot,
    /// State-machine transitions declared in the spec's `type State` ADT.
    LifecycleMonotonic,
    /// `transfers { ... }` or `call Interface.handler(...)` pinning the target program.
    CpiProgramPin,
    /// `transfers { from X to Y authority Z }` with explicit direction.
    CpiAccountDirection,
    /// Cross-handler composition: caller establishes callee's `requires`.
    DispatchCallerEstablishesCalleeRequires,
}

/// Where a cluster's clause applies in the emitted spec.
#[derive(Debug, Clone, PartialEq, Eq, Hash)]
pub enum ClusterScope {
    /// Program-wide invariant (top-level `invariant N`).
    Program,
    /// Handler-local clause; carries the handler name.
    Handler(String),
}

/// Confidence in the cluster's correctness.
#[derive(Debug, Clone, Copy, PartialEq, Eq, Structural)]
pub enum Confidence {
    High,
    Medium,
    Low,
}

/// Intermediate form a per-runtime extractor emits before clustering: one
/// per (finding, candidate-clause) pair.
#[derive(Debug, Clone)]
pub struct ProtoClause {
    /// Which spec-clause family this proto-clause belongs to.
    pub kind: ClusterKind,
    /// Handler the finding lives in.
    pub handler: String,
    /// Back-pointer to the originating finding id.
    pub finding_id: String,
    /// The raw text the extractor classified (kept for richer normalization;
    /// grouping uses `(kind, scope)` alone).
    pub evidence_text: String,
}

/// The mathematical value of a `ClusterScope`.
pub enum ScopeSpec {
    Program,
    Handler(Seq<char>),
}

impl View for ClusterScope {
    type V = ScopeSpec;

    open spec fn view(&self) -> ScopeSpec {
        match self {
            ClusterScope::Program => ScopeSpec::Program,
            ClusterScope::Handler(h) => ScopeSpec::Handler(h@),
        }
    }
}

/// Canonical snake_case identifier of a kind.
pub open spec fn kind_name(k: ClusterKind) -> Seq<char> {
    match k {
        ClusterKind::AccountOwnerCheck => "account_owner_check"@,
        ClusterKind::AccountInitCheck => "account_init_check"@,
        ClusterKind::AccountSignerCheck => "account_signer_check"@,
        ClusterKind::AccountTypeTagCheck => "account_type_tag_check"@,
        ClusterKind::AccountDistinct => "account_distinct"@,
        ClusterKind::ArithmeticNoOverflow => "arithmetic_no_overflow"@,
        ClusterKind::ArithmeticBoundPre => "arithmetic_bound_pre"@,
        ClusterKind::PdaCanonicalDerivation => "pda_canonical_derivation"@,
        ClusterKind::PdaSeedUniqueness => "pda_seed_uniqueness"@,
        ClusterKind::LifecycleOneShot => "lifecycle_one_shot"@,
        ClusterKind::LifecycleMonotonic => "lifecycle_monotonic"@,
        ClusterKind::CpiProgramPin => "cpi_program_pin"@,
        ClusterKind::CpiAccountDirection => "cpi_account_direction"@,
        ClusterKind::DispatchCallerEstablishesCalleeRequires => "dispatch_caller_establishes_callee_requires"@,
    }
}

/// Canonical scope identifier: `program`, or `handler:<name>`.
pub open spec fn scope_key(s: ScopeSpec) -> Seq<char> {
    match s {
        ScopeSpec::Program => "program"@,
        ScopeSpec::Handler(h) => "handler:"@ + h,
    }
}

impl ClusterKind {
    /// Canonical snake_case identifier, used in the cluster id and in
    /// per-runtime extractor mapping tables.
    pub fn as_str(self) -> (s: &'static str)
        ensures
            s@ == kind_name(self),
    {
        match self {
            ClusterKind::AccountOwnerCheck => "account_owner_check",
            ClusterKind::AccountInitCheck => "account_init_check",
            ClusterKind::AccountSignerCheck => "account_signer_check",
            ClusterKind::AccountTypeTagCheck => "account_type_tag_check",
            ClusterKind::AccountDistinct => "account_distinct",
            ClusterKind::ArithmeticNoOverflow => "arithmetic_no_overflow",
            ClusterKind::ArithmeticBoundPre => "arithmetic_bound_pre",
            ClusterKind::PdaCanonicalDerivation => "pda_canonical_derivation",
            ClusterKind::PdaSeedUniqueness => "pda_seed_uniqueness",
            ClusterKind::LifecycleOneShot => "lifecycle_one_shot",
            ClusterKind::LifecycleMonotonic => "lifecycle_monotonic",
            ClusterKind::CpiProgramPin => "cpi_program_pin",
            ClusterKind::CpiAccountDirection => "cpi_account_direction",
            ClusterKind::DispatchCallerEstablishesCalleeRequires => {
                "dispatch_caller_establishes_callee_requires"
            },
        }
    }
}

impl ClusterScope {
    /// Canonical scope identifier for id hashing and prompts-file routing:
    /// `Program` gives `program`, `Handler(name)` gives `handler:<name>`.
    pub fn as_key(&self) -> (k: String)
        ensures
            k@ == scope_key(self@),
    {
        match self {
            ClusterScope::Program => String::from_str("program"),
            ClusterScope::Handler(n) => String::from_str("handler:").concat(n.as_str()),
        }
    }
}

// ---------------------------------------------------------------------------
// Laws on the identifiers
// ---------------------------------------------------------------------------
/// Length and ninth char of each kind's name: a signature that tells the
/// kinds apart.
spec fn kind_signature(k: ClusterKind) -> (nat, char) {
    match k {
        ClusterKind::AccountOwnerCheck => (19, 'o'),
        ClusterKind::AccountInitCheck => (18, 'i'),
        ClusterKind::AccountSignerCheck => (20, 's'),
        ClusterKind::AccountTypeTagCheck => (22, 't'),
        ClusterKind::AccountDistinct => (16, 'd'),
        ClusterKind::ArithmeticNoOverflow => (22, 'i'),
        ClusterKind::ArithmeticBoundPre => (20, 'i'),
        ClusterKind::PdaCanonicalDerivation => (24, 'n'),
        ClusterKind::PdaSeedUniqueness => (19, '_'),
        ClusterKind::LifecycleOneShot => (18, 'e'),
        ClusterKind::LifecycleMonotonic => (19, 'e'),
        ClusterKind::CpiProgramPin => (15, 'r'),
        ClusterKind::CpiAccountDirection => (21, 'u'),
        ClusterKind::DispatchCallerEstablishesCalleeRequires => (43, '_'),
    }
}

proof fn lemma_kind_name_signature(k: ClusterKind)
    ensures
        kind_name(k).len() == kind_signature(k).0,
        kind_name(k)[8] == kind_signature(k).1,
{
    reveal_strlit("account_owner_check");
    reveal_strlit("account_init_check");
    reveal_strlit("account_signer_check");
    reveal_strlit("account_type_tag_check");
    reveal_strlit("account_distinct");
    reveal_strlit("arithmetic_no_overflow");
    reveal_strlit("arithmetic_bound_pre");
    reveal_strlit("pda_canonical_derivation");
    reveal_strlit("pda_seed_uniqueness");
    reveal_strlit("lifecycle_one_shot");
    reveal_strlit("lifecycle_monotonic");
    reveal_strlit("cpi_program_pin");
    reveal_strlit("cpi_account_direction");
    reveal_strlit("dispatch_caller_establishes_callee_requires");
}

/// Every kind has a non-empty identifier, and distinct kinds have distinct
/// identifiers.
pub proof fn lemma_kind_name_injective(a: ClusterKind, b: ClusterKind)
    ensures
        kind_name(a).len() > 0,
        kind_name(a) == kind_name(b) ==> a == b,
{
    lemma_kind_name_signature(a);
    lemma_kind_name_signature(b);
}

/// The scope key tells `Program` from every `Handler`, and handlers apart by
/// name.
pub proof fn lemma_scope_key_injective(a: ScopeSpec, b: ScopeSpec)
    ensures
        scope_key(a) == scope_key(b) ==> a == b,
{
    reveal_strlit("program");
    reveal_strlit("handler:");
    if scope_key(a) == scope_key(b) {
        match (a, b) {
            (ScopeSpec::Handler(x), ScopeSpec::Handler(y)) => {
                assert(x =~= scope_key(a).skip(8));
                assert(y =~= scope_key(b).skip(8));
            },
            (ScopeSpec::Program, ScopeSpec::Handler(y)) => {
                assert(scope_key(a)[0] != scope_key(b)[0]);
            },
            (ScopeSpec::Handler(x), ScopeSpec::Program) => {
                assert(scope_key(a)[0] != scope_key(b)[0]);
            },
            _ => {},
        }
    }
}

/// No kind's identifier holds a `-`.
#[verifier::spinoff_prover]
proof fn lemma_kind_name_no_dash(k: ClusterKind)
    ensures
        !kind_name(k).contains('-'),
{
    reveal_strlit("account_owner_check");
    reveal_strlit("account_init_check");
    reveal_strlit("account_signer_check");
    reveal_strlit("account_type_tag_check");
    reveal_strlit("account_distinct");
    reveal_strlit("arithmetic_no_overflow");
    reveal_strlit("arithmetic_bound_pre");
    reveal_strlit("pda_canonical_derivation");
    reveal_strlit("pda_seed_uniqueness");
    reveal_strlit("lifecycle_one_shot");
    reveal_strlit("lifecycle_monotonic");
    reveal_strlit("cpi_program_pin");
    reveal_strlit("cpi_account_direction");
    reveal_strlit("dispatch_caller_establishes_callee_requires");
    let s = kind_name(k);
    assert forall|i: int| 0 <= i < s.len() implies s[i] != '-' by {}
}

// ---------------------------------------------------------------------------
// Confidence and identity
// ---------------------------------------------------------------------------
/// An evidence count of 5 or more is `High`.
pub const CONFIDENCE_HIGH_MIN_EVIDENCE: usize = 5;

/// An evidence count from 2 up to the high threshold is `Medium`; below it, `Low`.
pub const CONFIDENCE_MEDIUM_MIN_EVIDENCE: usize = 2;

/// Confidence as a function of the number of distinct findings.
pub open spec fn confidence_for(n: nat) -> Confidence {
    if n >= CONFIDENCE_HIGH_MIN_EVIDENCE {
        Confidence::High
    } else if n >= CONFIDENCE_MEDIUM_MIN_EVIDENCE {
        Confidence::Medium
    } else {
        Confidence::Low
    }
}

pub fn score_confidence(evidence_count: usize) -> (c: Confidence)
    ensures
        c == confidence_for(evidence_count as nat),
{
    if evidence_count >= CONFIDENCE_HIGH_MIN_EVIDENCE {
        Confidence::High
    } else if evidence_count >= CONFIDENCE_MEDIUM_MIN_EVIDENCE {
        Confidence::Medium
    } else {
        Confidence::Low
    }
}

/// The text whose SHA-256 digest identifies a cluster.
pub open spec fn id_message(kind: ClusterKind, scope: ScopeSpec) -> Seq<char> {
    "qedgen-cluster-v1\n"@ + kind_name(kind) + ":"@ + scope_key(scope)
}

/// `c-<8 hex digits of the digest>-<kind>-<scope key>`.
pub open spec fn id_from_digest(kind: ClusterKind, scope: ScopeSpec, digest: Seq<u8>) -> Seq<char> {
    "c-"@ + hex_lower(digest.take(4)) + "-"@ + kind_name(kind) + "-"@ + scope_key(scope)
}

/// The deterministic cluster id: a function of the kind and the scope alone.
pub open spec fn cluster_id(kind: ClusterKind, scope: ScopeSpec) -> Seq<char> {
    id_from_digest(kind, scope, sha256(vstd::utf8::encode_utf8(id_message(kind, scope))))
}

/// Renders the id from the digest of `id_message(kind, scope)`.
pub fn cluster_id_from_digest(kind: ClusterKind, scope: &ClusterScope, digest: &Vec<u8>) -> (r:
    String)
    requires
        digest.len() >= 4,
    ensures
        r@ == id_from_digest(kind, scope@, digest@),
{
    let mut r = String::from_str("c-");
    push_hex_prefix(&mut r, digest, 4);
    r.append("-");
    r.append(kind.as_str());
    r.append("-");
    let key = scope.as_key();
    r.append(key.as_str());
    r
}

/// Deterministic cluster id `c-<8hex>-<kind>-<scope>`: stable across runs
/// since it hashes the kind and the scope alone.
pub fn compute_cluster_id(kind: ClusterKind, scope: &ClusterScope) -> (r: String)
    ensures
        r@ == cluster_id(kind, scope@),
{
    let key = scope.as_key();
    let msg = String::from_str("qedgen-cluster-v1\n").concat(kind.as_str()).concat(":").concat(
        key.as_str(),
    );
    let digest = sha256_digest(msg.as_str().as_bytes());
    cluster_id_from_digest(kind, scope, &digest)
}

/// The cluster id tells clusters apart: two (kind, scope) pairs get the same
/// id exactly when they are the same pair, whatever the digest.
#[verifier::spinoff_prover]
pub proof fn lemma_cluster_id_injective(k1: ClusterKind, s1: ScopeSpec, k2: ClusterKind, s2: ScopeSpec)
    ensures
        cluster_id(k1, s1) == cluster_id(k2, s2) <==> (k1 == k2 && s1 == s2),
{
    if cluster_id(k1, s1) == cluster_id(k2, s2) {
        reveal_strlit("c-");
        reveal_strlit("-");
        let h1 = hex_lower(sha256(vstd::utf8::encode_utf8(id_message(k1, s1))).take(4));
        let h2 = hex_lower(sha256(vstd::utf8::encode_utf8(id_message(k2, s2))).take(4));
        let n1 = kind_name(k1);
        let n2 = kind_name(k2);
        let q1 = scope_key(s1);
        let q2 = scope_key(s2);
        let t1 = cluster_id(k1, s1).skip(2);
        let t2 = cluster_id(k2, s2).skip(2);
        assert(t1 =~= h1 + seq!['-'] + (n1 + seq!['-'] + q1));
        assert(t2 =~= h2 + seq!['-'] + (n2 + seq!['-'] + q2));
        lemma_hex_lower_no_dash(sha256(vstd::utf8::encode_utf8(id_message(k1, s1))).take(4));
        lemma_hex_lower_no_dash(sha256(vstd::utf8::encode_utf8(id_message(k2, s2))).take(4));
        lemma_split_at_first(h1, n1 + seq!['-'] + q1, h2, n2 + seq!['-'] + q2, '-');
        lemma_kind_name_no_dash(k1);
        lemma_kind_name_no_dash(k2);
        lemma_split_at_first(n1, q1, n2, q2, '-');
        lemma_kind_name_injective(k1, k2);
        lemma_scope_key_injective(s1, s2);
    }
}

} // verus!
