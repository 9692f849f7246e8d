//! The clustering algorithm: lifts the proto-clauses of any per-runtime
//! extractor into clusters ready for the prompts-file writer.
//!
//! Proto-clauses are grouped by `(kind, handler)`. A kind whose
//! proto-clauses come from at least `PROGRAM_SCOPE_PROMOTION_THRESHOLD`
//! distinct handlers is promoted to one program-scope cluster; otherwise
//! each handler gets its own cluster. Output order is program scope first,
//! then kind name, then scope key.
use vstd::prelude::*;

use crate::cluster::{
    cluster_id,
    compute_cluster_id,
    confidence_for,
    kind_name,
    lemma_kind_name_injective,
    lemma_scope_key_injective,
    scope_key,
    score_confidence,
    Cluster,
    ClusterKind,
    ClusterScope,
    ProtoClause,
    ScopeSpec,
};
use crate::template::{lemma_template_question, render_template, template};
use crate::text::{
    contains,
    lemma_lex_lt_irreflexive,
    lemma_lex_lt_total,
    lemma_lex_lt_transitive,
    lex_less,
    lex_lt,
    starts_with,
    str_eq,
    strings,
};

verus! {

broadcast use vstd::string::group_string_axioms;

/// When a kind's proto-clauses come from at least this many distinct
/// handlers, the kind is promoted to one program-wide cluster.
pub const PROGRAM_SCOPE_PROMOTION_THRESHOLD: usize = 3;

// ---------------------------------------------------------------------------
// What the clusters of a list of proto-clauses are
// ---------------------------------------------------------------------------
/// The handlers that contribute proto-clauses of `kind`.
pub open spec fn kind_handlers(ps: Seq<ProtoClause>, kind: ClusterKind) -> Set<Seq<char>> {
    Set::new(
        |h: Seq<char>|
            exists|i: int| 0 <= i < ps.len() && ps[i].kind == kind && ps[i].handler@ == h,
    )
}

/// The kind is promoted to program scope.
pub open spec fn promoted(ps: Seq<ProtoClause>, kind: ClusterKind) -> bool {
    kind_handlers(ps, kind).finite() && kind_handlers(ps, kind).len()
        >= PROGRAM_SCOPE_PROMOTION_THRESHOLD
}

/// The proto-clause belongs to the cluster of `(kind, scope)`.
pub open spec fn in_scope(p: ProtoClause, kind: ClusterKind, scope: ScopeSpec) -> bool {
    p.kind == kind && match scope {
        ScopeSpec::Program => true,
        ScopeSpec::Handler(h) => p.handler@ == h,
    }
}

/// The finding ids of the proto-clauses of the cluster `(kind, scope)`.
pub open spec fn member_ids(ps: Seq<ProtoClause>, kind: ClusterKind, scope: ScopeSpec) -> Set<
    Seq<char>,
> {
    Set::new(
        |id: Seq<char>|
            exists|i: int|
                0 <= i < ps.len() && in_scope(ps[i], kind, scope) && ps[i].finding_id@ == id,
    )
}

/// `(kind, scope)` is the key of one of the clusters of `ps`.
pub open spec fn is_cluster_key(ps: Seq<ProtoClause>, kind: ClusterKind, scope: ScopeSpec) -> bool {
    match scope {
        ScopeSpec::Program => promoted(ps, kind),
        ScopeSpec::Handler(h) => !promoted(ps, kind) && kind_handlers(ps, kind).contains(h),
    }
}

/// Each element strictly precedes the next in the order of `str`.
pub open spec fn strictly_ascending(s: Seq<Seq<char>>) -> bool {
    forall|i: int, j: int| 0 <= i < j < s.len() ==> lex_lt(#[trigger] s[i], #[trigger] s[j])
}

pub open spec fn scope_rank(s: ScopeSpec) -> nat {
    match s {
        ScopeSpec::Program => 0,
        ScopeSpec::Handler(_) => 1,
    }
}

/// The output order of clusters: program scope first, then kind name, then
/// scope key.
pub open spec fn key_before(k1: ClusterKind, s1: ScopeSpec, k2: ClusterKind, s2: ScopeSpec) -> bool {
    ||| scope_rank(s1) < scope_rank(s2)
    ||| scope_rank(s1) == scope_rank(s2) && lex_lt(kind_name(k1), kind_name(k2))
    ||| scope_rank(s1) == scope_rank(s2) && kind_name(k1) == kind_name(k2) && lex_lt(
        scope_key(s1),
        scope_key(s2),
    )
}

/// `c` is the cluster of `(kind, scope)` whose findings are `ids`.
pub open spec fn is_built(c: Cluster, kind: ClusterKind, scope: ScopeSpec, ids: Set<Seq<char>>) -> bool {
    &&& c.kind == kind
    &&& c.scope@ == scope
    &&& strictly_ascending(strings(c.finding_ids@))
    &&& strings(c.finding_ids@).to_set() == ids
    &&& c.evidence_count == c.finding_ids.len()
    &&& c.confidence == confidence_for(c.evidence_count as nat)
    &&& c.id@ == cluster_id(kind, scope)
    &&& c.proto_clause_text@ == template(kind, scope, c.evidence_count as nat).proto_text
    &&& c.suggested_syntax@ == template(kind, scope, c.evidence_count as nat).syntax
    &&& c.question_md@ == template(kind, scope, c.evidence_count as nat).question
    &&& c.writes_on_accept@ == template(kind, scope, c.evidence_count as nat).writes_on_accept
    &&& c.writes_on_narrow@ == template(kind, scope, c.evidence_count as nat).writes_on_narrow
    &&& c.writes_on_reject@ == ".qed/plan/scoping.md"@
    &&& c.writes_on_bug@ == ".qed/findings/"@
}

// ---------------------------------------------------------------------------
// The output order is a strict total order on distinct keys
// ---------------------------------------------------------------------------
proof fn lemma_key_before_irreflexive(k: ClusterKind, s: ScopeSpec)
    ensures
        !key_before(k, s, k, s),
{
    lemma_lex_lt_irreflexive(kind_name(k));
    lemma_lex_lt_irreflexive(scope_key(s));
}

proof fn lemma_key_before_transitive(
    k1: ClusterKind,
    s1: ScopeSpec,
    k2: ClusterKind,
    s2: ScopeSpec,
    k3: ClusterKind,
    s3: ScopeSpec,
)
    requires
        key_before(k1, s1, k2, s2),
        key_before(k2, s2, k3, s3),
    ensures
        key_before(k1, s1, k3, s3),
{
    if lex_lt(kind_name(k1), kind_name(k2)) && lex_lt(kind_name(k2), kind_name(k3)) {
        lemma_lex_lt_transitive(kind_name(k1), kind_name(k2), kind_name(k3));
    }
    if lex_lt(scope_key(s1), scope_key(s2)) && lex_lt(scope_key(s2), scope_key(s3)) {
        lemma_lex_lt_transitive(scope_key(s1), scope_key(s2), scope_key(s3));
    }
}

proof fn lemma_key_before_total(k1: ClusterKind, s1: ScopeSpec, k2: ClusterKind, s2: ScopeSpec)
    requires
        k1 != k2 || s1 != s2,
    ensures
        key_before(k1, s1, k2, s2) || key_before(k2, s2, k1, s1),
{
    lemma_lex_lt_total(kind_name(k1), kind_name(k2));
    lemma_lex_lt_total(scope_key(s1), scope_key(s2));
    lemma_kind_name_injective(k1, k2);
    lemma_scope_key_injective(s1, s2);
}

// ---------------------------------------------------------------------------
// Building blocks
// ---------------------------------------------------------------------------
/// `s` is one of `v`.
fn contains_string(v: &Vec<String>, s: &String) -> (r: bool)
    ensures
        r == strings(v@).contains(s@),
{
    let mut i: usize = 0;
    while i < v.len()
        invariant
            i <= v.len(),
            forall|k: int| 0 <= k < i ==> v@[k]@ != s@,
        decreases v.len() - i,
    {
        if v[i] == *s {
            assert(strings(v@)[i as int] == s@);
            return true;
        }
        i += 1;
    }
    assert(!strings(v@).contains(s@)) by {
        if strings(v@).contains(s@) {
            let k = choose|k: int| 0 <= k < strings(v@).len() && strings(v@)[k] == s@;
            assert(v@[k]@ == s@);
        }
    }
    false
}

/// The distinct handlers contributing proto-clauses of `kind`, without
/// repetition.
fn distinct_handlers(protos: &Vec<ProtoClause>, kind: ClusterKind) -> (hs: Vec<String>)
    ensures
        strings(hs@).no_duplicates(),
        strings(hs@).to_set() == kind_handlers(protos@, kind),
{
    let mut hs: Vec<String> = Vec::new();
    let mut i: usize = 0;
    while i < protos.len()
        invariant
            i <= protos.len(),
            strings(hs@).no_duplicates(),
            forall|h: Seq<char>|
                strings(hs@).contains(h) <==> exists|j: int|
                    0 <= j < i && protos@[j].kind == kind && protos@[j].handler@ == h,
        decreases protos.len() - i,
    {
        let ghost old_hs = strings(hs@);
        let ghost hi = protos@[i as int].handler@;
        if protos[i].kind == kind && !contains_string(&hs, &protos[i].handler) {
            hs.push(protos[i].handler.clone());
            assert(strings(hs@) =~= old_hs.push(hi));
        }
        assert(strings(hs@) == old_hs.push(hi) || strings(hs@) == old_hs);
        assert(strings(hs@) == old_hs.push(hi) ==> protos@[i as int].kind == kind);
        assert(strings(hs@) == old_hs && protos@[i as int].kind == kind ==> old_hs.contains(hi));
        assert forall|h: Seq<char>|
            strings(hs@).contains(h) <==> exists|j: int|
                0 <= j < i + 1 && protos@[j].kind == kind && protos@[j].handler@ == h by {
            if strings(hs@).contains(h) && !old_hs.contains(h) {
                assert(strings(hs@) != old_hs);
                let k = choose|k: int| 0 <= k < strings(hs@).len() && strings(hs@)[k] == h;
                if k < old_hs.len() {
                    assert(old_hs[k] == h);
                }
                assert(h == hi);
                assert(protos@[i as int].kind == kind && protos@[i as int].handler@ == h);
            }
            if exists|j: int| 0 <= j < i + 1 && protos@[j].kind == kind && protos@[j].handler@ == h {
                let j = choose|j: int|
                    0 <= j < i + 1 && protos@[j].kind == kind && protos@[j].handler@ == h;
                if j == i {
                    if strings(hs@) == old_hs.push(hi) {
                        assert(strings(hs@)[old_hs.len() as int] == hi);
                    }
                } else {
                    assert(old_hs.contains(h));
                    let k = choose|k: int| 0 <= k < old_hs.len() && old_hs[k] == h;
                    assert(strings(hs@)[k] == h);
                }
            }
        }
        i += 1;
    }
    assert(strings(hs@).to_set() =~= kind_handlers(protos@, kind));
    hs
}

/// Inserts `x` into an ascending list of distinct strings, unless present.
fn insert_unique_sorted(v: &mut Vec<String>, x: String)
    requires
        strictly_ascending(strings(old(v)@)),
    ensures
        strictly_ascending(strings(final(v)@)),
        strings(final(v)@).to_set() == strings(old(v)@).to_set().insert(x@),
{
    let ghost old_s = strings(v@);
    let mut pos: usize = 0;
    while pos < v.len() && lex_less(v[pos].as_str(), x.as_str())
        invariant
            pos <= v.len(),
            strings(v@) == old_s,
            forall|k: int| 0 <= k < pos ==> lex_lt(#[trigger] old_s[k], x@),
        decreases v.len() - pos,
    {
        pos += 1;
    }
    if pos < v.len() && v[pos] == x {
        assert(old_s[pos as int] == x@);
        assert(old_s.to_set().insert(x@) =~= old_s.to_set());
        return ;
    }
    proof {
        if pos < v.len() {
            lemma_lex_lt_total(old_s[pos as int], x@);
            assert(lex_lt(x@, old_s[pos as int]));
            assert forall|k: int| pos <= k < old_s.len() implies lex_lt(x@, #[trigger] old_s[k]) by {
                if k > pos {
                    lemma_lex_lt_transitive(x@, old_s[pos as int], old_s[k]);
                }
            }
        }
    }
    v.insert(pos, x);
    let ghost new_s = strings(v@);
    assert(new_s =~= old_s.insert(pos as int, x@));
    assert forall|i: int, j: int| 0 <= i < j < new_s.len() implies lex_lt(
        #[trigger] new_s[i],
        #[trigger] new_s[j],
    ) by {
        if j < pos {
        } else if j == pos {
        } else if i < pos {
            lemma_lex_lt_transitive(old_s[i], x@, old_s[j - 1]);
        } else if i == pos {
        } else {
        }
    }
    assert(new_s.to_set() =~= old_s.to_set().insert(x@)) by {
        assert forall|e: Seq<char>| new_s.to_set().contains(e) <==> old_s.to_set().insert(
            x@,
        ).contains(e) by {
            if new_s.contains(e) {
                let k = choose|k: int| 0 <= k < new_s.len() && new_s[k] == e;
                if k < pos {
                    assert(old_s[k] == e);
                } else if k > pos {
                    assert(old_s[k - 1] == e);
                }
            }
            if old_s.contains(e) {
                let k = choose|k: int| 0 <= k < old_s.len() && old_s[k] == e;
                if k < pos {
                    assert(new_s[k] == e);
                } else {
                    assert(new_s[k + 1] == e);
                }
            }
            if e == x@ {
                assert(new_s[pos as int] == e);
            }
        }
    }
}

/// The proto-clause belongs to the cluster of `(kind, scope)`.
fn proto_in_scope(p: &ProtoClause, kind: ClusterKind, scope: &ClusterScope) -> (r: bool)
    ensures
        r == in_scope(*p, kind, scope@),
{
    if p.kind != kind {
        return false;
    }
    match scope {
        ClusterScope::Program => true,
        ClusterScope::Handler(h) => p.handler == *h,
    }
}

/// The distinct finding ids of the cluster `(kind, scope)`, ascending.
fn collect_ids(protos: &Vec<ProtoClause>, kind: ClusterKind, scope: &ClusterScope) -> (ids: Vec<
    String,
>)
    ensures
        strictly_ascending(strings(ids@)),
        strings(ids@).to_set() == member_ids(protos@, kind, scope@),
{
    let mut ids: Vec<String> = Vec::new();
    let mut i: usize = 0;
    while i < protos.len()
        invariant
            i <= protos.len(),
            strictly_ascending(strings(ids@)),
            strings(ids@).to_set() == Set::new(
                |id: Seq<char>|
                    exists|j: int|
                        0 <= j < i && in_scope(protos@[j], kind, scope@) && protos@[j].finding_id@
                            == id,
            ),
        decreases protos.len() - i,
    {
        let ghost before = strings(ids@).to_set();
        if proto_in_scope(&protos[i], kind, scope) {
            insert_unique_sorted(&mut ids, protos[i].finding_id.clone());
        }
        assert(strings(ids@).to_set() =~= Set::new(
            |id: Seq<char>|
                exists|j: int|
                    0 <= j < i + 1 && in_scope(protos@[j], kind, scope@) && protos@[j].finding_id@
                        == id,
        )) by {
            assert forall|id: Seq<char>|
                (exists|j: int|
                    0 <= j < i + 1 && in_scope(protos@[j], kind, scope@) && protos@[j].finding_id@
                        == id) implies #[trigger] strings(ids@).to_set().contains(id) by {
                let j = choose|j: int|
                    0 <= j < i + 1 && in_scope(protos@[j], kind, scope@) && protos@[j].finding_id@
                        == id;
                if j < i {
                    assert(before.contains(id));
                }
            }
        }
        i += 1;
    }
    assert(strings(ids@).to_set() =~= member_ids(protos@, kind, scope@));
    ids
}

/// Build a single cluster from its kind, scope and ascending distinct
/// finding ids.
fn build_cluster(kind: ClusterKind, scope: ClusterScope, finding_ids: Vec<String>) -> (c: Cluster)
    requires
        strictly_ascending(strings(finding_ids@)),
    ensures
        is_built(c, kind, scope@, strings(finding_ids@).to_set()),
{
    let evidence_count = finding_ids.len();
    let confidence = score_confidence(evidence_count);
    let template = render_template(kind, &scope, evidence_count);
    let id = compute_cluster_id(kind, &scope);
    Cluster {
        id,
        kind,
        scope,
        finding_ids,
        evidence_count,
        confidence,
        proto_clause_text: template.proto_text,
        suggested_syntax: template.syntax,
        question_md: template.question,
        writes_on_accept: template.writes_on_accept,
        writes_on_narrow: template.writes_on_narrow,
        writes_on_reject: String::from_str(".qed/plan/scoping.md"),
        writes_on_bug: String::from_str(".qed/findings/"),
    }
}

// ---------------------------------------------------------------------------
// Ordered output
// ---------------------------------------------------------------------------
/// The clusters are in output order.
pub open spec fn clusters_sorted(s: Seq<Cluster>) -> bool {
    forall|i: int, j: int|
        0 <= i < j < s.len() ==> key_before(
            #[trigger] s[i].kind,
            s[i].scope@,
            #[trigger] s[j].kind,
            s[j].scope@,
        )
}

/// `c` is one of the clusters of `ps`, built from its members.
pub open spec fn cluster_ok(ps: Seq<ProtoClause>, c: Cluster) -> bool {
    is_cluster_key(ps, c.kind, c.scope@) && is_built(
        c,
        c.kind,
        c.scope@,
        member_ids(ps, c.kind, c.scope@),
    )
}

/// Some cluster of `out` has the key `(kind, scope)`.
pub open spec fn has_key(out: Seq<Cluster>, kind: ClusterKind, scope: ScopeSpec) -> bool {
    exists|i: int| 0 <= i < out.len() && #[trigger] out[i].kind == kind && out[i].scope@ == scope
}

/// The order of the output, computed.
fn key_less(k1: ClusterKind, s1: &ClusterScope, k2: ClusterKind, s2: &ClusterScope) -> (r: bool)
    ensures
        r == key_before(k1, s1@, k2, s2@),
{
    let r1: u8 = match s1 {
        ClusterScope::Program => 0,
        ClusterScope::Handler(_) => 1,
    };
    let r2: u8 = match s2 {
        ClusterScope::Program => 0,
        ClusterScope::Handler(_) => 1,
    };
    if r1 != r2 {
        return r1 < r2;
    }
    let n1 = k1.as_str();
    let n2 = k2.as_str();
    if lex_less(n1, n2) {
        return true;
    }
    if !str_eq(n1, n2) {
        return false;
    }
    let a = s1.as_key();
    let b = s2.as_key();
    lex_less(a.as_str(), b.as_str())
}

/// Inserts `c` at its place in the ordered `out`; returns that place.
fn insert_cluster(out: &mut Vec<Cluster>, c: Cluster) -> (pos: usize)
    requires
        clusters_sorted(old(out)@),
        forall|i: int|
            0 <= i < old(out)@.len() ==> !(#[trigger] old(out)@[i].kind == c.kind
                && old(out)@[i].scope@ == c.scope@),
    ensures
        pos <= old(out)@.len(),
        final(out)@ == old(out)@.insert(pos as int, c),
        clusters_sorted(final(out)@),
{
    let ghost o = out@;
    let mut pos: usize = 0;
    while pos < out.len() && key_less(out[pos].kind, &out[pos].scope, c.kind, &c.scope)
        invariant
            pos <= out.len(),
            out@ == o,
            forall|k: int|
                0 <= k < pos ==> key_before(#[trigger] o[k].kind, o[k].scope@, c.kind, c.scope@),
        decreases out.len() - pos,
    {
        pos += 1;
    }
    proof {
        if pos < o.len() {
            lemma_key_before_total(o[pos as int].kind, o[pos as int].scope@, c.kind, c.scope@);
            assert forall|k: int| pos <= k < o.len() implies key_before(
                c.kind,
                c.scope@,
                #[trigger] o[k].kind,
                o[k].scope@,
            ) by {
                if k > pos {
                    lemma_key_before_transitive(
                        c.kind,
                        c.scope@,
                        o[pos as int].kind,
                        o[pos as int].scope@,
                        o[k].kind,
                        o[k].scope@,
                    );
                }
            }
        }
    }
    let ghost cc = c;
    out.insert(pos, c);
    let ghost n = out@;
    assert(n == o.insert(pos as int, cc));
    assert forall|i: int, j: int| 0 <= i < j < n.len() implies key_before(
        #[trigger] n[i].kind,
        n[i].scope@,
        #[trigger] n[j].kind,
        n[j].scope@,
    ) by {
        if j < pos {
            assert(n[i] == o[i] && n[j] == o[j]);
        } else if j == pos {
            assert(n[i] == o[i]);
        } else if i < pos {
            assert(n[i] == o[i] && n[j] == o[j - 1]);
            lemma_key_before_transitive(
                o[i].kind,
                o[i].scope@,
                cc.kind,
                cc.scope@,
                o[j - 1].kind,
                o[j - 1].scope@,
            );
        } else if i == pos {
            assert(n[j] == o[j - 1]);
        } else {
            assert(n[i] == o[i - 1] && n[j] == o[j - 1]);
        }
    }
    pos
}

/// Every kind, once.
fn all_kinds() -> (v: Vec<ClusterKind>)
    ensures
        v@.no_duplicates(),
        forall|k: ClusterKind| v@.contains(k),
{
    let v = vec![
        ClusterKind::AccountOwnerCheck,
        ClusterKind::AccountInitCheck,
        ClusterKind::AccountSignerCheck,
        ClusterKind::AccountTypeTagCheck,
        ClusterKind::AccountDistinct,
        ClusterKind::ArithmeticNoOverflow,
        ClusterKind::ArithmeticBoundPre,
        ClusterKind::PdaCanonicalDerivation,
        ClusterKind::PdaSeedUniqueness,
        ClusterKind::LifecycleOneShot,
        ClusterKind::LifecycleMonotonic,
        ClusterKind::CpiProgramPin,
        ClusterKind::CpiAccountDirection,
        ClusterKind::DispatchCallerEstablishesCalleeRequires,
    ];
    assert forall|k: ClusterKind| v@.contains(k) by {
        match k {
            ClusterKind::AccountOwnerCheck => assert(v@[0] == k),
            ClusterKind::AccountInitCheck => assert(v@[1] == k),
            ClusterKind::AccountSignerCheck => assert(v@[2] == k),
            ClusterKind::AccountTypeTagCheck => assert(v@[3] == k),
            ClusterKind::AccountDistinct => assert(v@[4] == k),
            ClusterKind::ArithmeticNoOverflow => assert(v@[5] == k),
            ClusterKind::ArithmeticBoundPre => assert(v@[6] == k),
            ClusterKind::PdaCanonicalDerivation => assert(v@[7] == k),
            ClusterKind::PdaSeedUniqueness => assert(v@[8] == k),
            ClusterKind::LifecycleOneShot => assert(v@[9] == k),
            ClusterKind::LifecycleMonotonic => assert(v@[10] == k),
            ClusterKind::CpiProgramPin => assert(v@[11] == k),
            ClusterKind::CpiAccountDirection => assert(v@[12] == k),
            ClusterKind::DispatchCallerEstablishesCalleeRequires => assert(v@[13] == k),
        }
    }
    v
}

proof fn lemma_insert_keeps_key(o: Seq<Cluster>, pos: int, c: Cluster, k: ClusterKind, s: ScopeSpec)
    requires
        0 <= pos <= o.len(),
        has_key(o, k, s),
    ensures
        has_key(o.insert(pos, c), k, s),
{
    let i = choose|i: int| 0 <= i < o.len() && #[trigger] o[i].kind == k && o[i].scope@ == s;
    if i < pos {
        assert(o.insert(pos, c)[i] == o[i]);
    } else {
        assert(o.insert(pos, c)[i + 1] == o[i]);
    }
}

proof fn lemma_insert_adds_key(o: Seq<Cluster>, pos: int, c: Cluster)
    requires
        0 <= pos <= o.len(),
    ensures
        has_key(o.insert(pos, c), c.kind, c.scope@),
{
    assert(o.insert(pos, c)[pos] == c);
}

/// The clusters of one kind are placed (`handled` are the handlers whose
/// cluster is in `out` already).
pub open spec fn placed(c: Cluster, done: Seq<ClusterKind>, kind: ClusterKind, handled: Seq<Seq<char>>) -> bool {
    ||| done.contains(c.kind)
    ||| c.kind == kind && match c.scope@ {
        ScopeSpec::Handler(h) => handled.contains(h),
        ScopeSpec::Program => false,
    }
}

/// Adds the clusters of `kind` to the ordered `out`.
fn add_kind_clusters(
    protos: &Vec<ProtoClause>,
    kind: ClusterKind,
    out: &mut Vec<Cluster>,
    Ghost(done): Ghost<Seq<ClusterKind>>,
)
    requires
        !done.contains(kind),
        clusters_sorted(old(out)@),
        forall|i: int|
            0 <= i < old(out)@.len() ==> cluster_ok(protos@, #[trigger] old(out)@[i]) && done.contains(
                old(out)@[i].kind,
            ),
        forall|k: ClusterKind, s: ScopeSpec|
            #[trigger] is_cluster_key(protos@, k, s) && done.contains(k) ==> has_key(
                old(out)@,
                k,
                s,
            ),
    ensures
        clusters_sorted(final(out)@),
        forall|i: int|
            0 <= i < final(out)@.len() ==> cluster_ok(protos@, #[trigger] final(out)@[i])
                && done.push(kind).contains(final(out)@[i].kind),
        forall|k: ClusterKind, s: ScopeSpec|
            #[trigger] is_cluster_key(protos@, k, s) && done.push(kind).contains(k) ==> has_key(
                final(out)@,
                k,
                s,
            ),
{
    let ghost ps = protos@;
    let hs = distinct_handlers(protos, kind);
    let ghost hss = strings(hs@);
    proof {
        hss.unique_seq_to_set();
        vstd::seq_lib::seq_to_set_is_finite(hss);
        assert(kind_handlers(ps, kind).finite());
        assert(kind_handlers(ps, kind).len() == hs.len());
    }
    if hs.len() >= PROGRAM_SCOPE_PROMOTION_THRESHOLD {
        let ids = collect_ids(protos, kind, &ClusterScope::Program);
        let c = build_cluster(kind, ClusterScope::Program, ids);
        let ghost cc = c;
        let ghost o = out@;
        assert(cluster_ok(ps, c));
        let pos = insert_cluster(out, c);
        proof {
            lemma_insert_adds_key(o, pos as int, cc);
            assert forall|i: int|
                0 <= i < out@.len() implies cluster_ok(ps, #[trigger] out@[i])
                && done.push(kind).contains(out@[i].kind) by {
                if i < pos {
                    assert(out@[i] == o[i]);
                } else if i > pos {
                    assert(out@[i] == o[i - 1]);
                } else {
                    assert(done.push(kind)[done.len() as int] == kind);
                }
                if done.contains(out@[i].kind) {
                    let j = choose|j: int| 0 <= j < done.len() && done[j] == out@[i].kind;
                    assert(done.push(kind)[j] == out@[i].kind);
                }
            }
            assert forall|k: ClusterKind, s: ScopeSpec|
                #[trigger] is_cluster_key(ps, k, s) && done.push(kind).contains(k) implies has_key(
                out@,
                k,
                s,
            ) by {
                if k == kind {
                    match s {
                        ScopeSpec::Program => {},
                        ScopeSpec::Handler(_) => {},
                    }
                } else {
                    let j = choose|j: int| 0 <= j < done.push(kind).len() && done.push(kind)[j] == k;
                    assert(done[j] == k);
                    lemma_insert_keeps_key(o, pos as int, cc, k, s);
                }
            }
        }
    } else {
        let mut j: usize = 0;
        while j < hs.len()
            invariant
                ps == protos@,
                hss == strings(hs@),
                hss.no_duplicates(),
                hss.to_set() == kind_handlers(ps, kind),
                !promoted(ps, kind),
                !done.contains(kind),
                j <= hs.len(),
                clusters_sorted(out@),
                forall|i: int|
                    0 <= i < out@.len() ==> cluster_ok(ps, #[trigger] out@[i]) && placed(
                        out@[i],
                        done,
                        kind,
                        hss.take(j as int),
                    ),
                forall|k: ClusterKind, s: ScopeSpec|
                    #[trigger] is_cluster_key(ps, k, s) && done.contains(k) ==> has_key(
                        out@,
                        k,
                        s,
                    ),
                forall|h: Seq<char>|
                    hss.take(j as int).contains(h) ==> has_key(
                        out@,
                        kind,
                        ScopeSpec::Handler(h),
                    ),
            decreases hs.len() - j,
        {
            let scope = ClusterScope::Handler(hs[j].clone());
            let ids = collect_ids(protos, kind, &scope);
            let c = build_cluster(kind, scope, ids);
            let ghost cc = c;
            let ghost o = out@;
            let ghost h = hss[j as int];
            assert(cc.scope@ == ScopeSpec::Handler(h));
            assert(hss.to_set().contains(h));
            assert(cluster_ok(ps, cc));
            assert forall|i: int| 0 <= i < o.len() implies !(#[trigger] o[i].kind == cc.kind
                && o[i].scope@ == cc.scope@) by {
                if o[i].kind == cc.kind && o[i].scope@ == cc.scope@ {
                    assert(placed(o[i], done, kind, hss.take(j as int)));
                    let m = choose|m: int| 0 <= m < j && hss.take(j as int)[m] == h;
                    assert(hss[m] == hss[j as int]);
                }
            }
            let pos = insert_cluster(out, c);
            proof {
                lemma_insert_adds_key(o, pos as int, cc);
                assert(hss.take(j + 1) == hss.take(j as int).push(h));
                assert forall|i: int|
                    0 <= i < out@.len() implies cluster_ok(ps, #[trigger] out@[i]) && placed(
                    out@[i],
                    done,
                    kind,
                    hss.take(j + 1),
                ) by {
                    if i < pos {
                        assert(out@[i] == o[i]);
                    } else if i > pos {
                        assert(out@[i] == o[i - 1]);
                    } else {
                        assert(hss.take(j + 1)[j as int] == h);
                    }
                    match out@[i].scope@ {
                        ScopeSpec::Handler(g) => {
                            if hss.take(j as int).contains(g) {
                                let m = choose|m: int| 0 <= m < j && hss.take(j as int)[m] == g;
                                assert(hss.take(j + 1)[m] == g);
                            }
                        },
                        ScopeSpec::Program => {},
                    }
                }
                assert forall|k: ClusterKind, s: ScopeSpec|
                    #[trigger] is_cluster_key(ps, k, s) && done.contains(k) implies has_key(
                    out@,
                    k,
                    s,
                ) by {
                    lemma_insert_keeps_key(o, pos as int, cc, k, s);
                }
                assert forall|g: Seq<char>| hss.take(j + 1).contains(g) implies has_key(
                    out@,
                    kind,
                    ScopeSpec::Handler(g),
                ) by {
                    let tk = hss.take(j + 1);
                    let m = choose|m: int| 0 <= m < j + 1 && tk[m] == g;
                    if m < j {
                        assert(hss.take(j as int)[m] == g);
                        assert(hss.take(j as int).contains(g));
                        lemma_insert_keeps_key(o, pos as int, cc, kind, ScopeSpec::Handler(g));
                    }
                }
            }
            j += 1;
        }
        proof {
            assert(hss.take(hs.len() as int) == hss);
            assert forall|i: int|
                0 <= i < out@.len() implies cluster_ok(ps, #[trigger] out@[i])
                && done.push(kind).contains(out@[i].kind) by {
                assert(placed(out@[i], done, kind, hss));
                if done.contains(out@[i].kind) {
                    let m = choose|m: int| 0 <= m < done.len() && done[m] == out@[i].kind;
                    assert(done.push(kind)[m] == out@[i].kind);
                } else {
                    assert(done.push(kind)[done.len() as int] == kind);
                }
            }
            assert forall|k: ClusterKind, s: ScopeSpec|
                #[trigger] is_cluster_key(ps, k, s) && done.push(kind).contains(k) implies has_key(
                out@,
                k,
                s,
            ) by {
                if k == kind {
                    match s {
                        ScopeSpec::Program => {},
                        ScopeSpec::Handler(g) => {
                            assert(hss.to_set().contains(g));
                        },
                    }
                } else {
                    let m = choose|m: int| 0 <= m < done.push(kind).len() && done.push(kind)[m] == k;
                    assert(done[m] == k);
                }
            }
        }
    }
}

/// The clustering algorithm. Proto-clauses are grouped by `(kind, handler)`;
/// a kind with at least `PROGRAM_SCOPE_PROMOTION_THRESHOLD` distinct
/// handlers becomes one program-scope cluster, otherwise each handler gets
/// its own cluster. Each cluster holds its distinct finding ids in
/// ascending order, with confidence, id and texts computed from them. The
/// output is ordered: program scope first, then kind name, then scope key.
pub fn cluster_protos(protos: Vec<ProtoClause>) -> (out: Vec<Cluster>)
    ensures
        is_clustering(protos@, out@),
{
    let kinds = all_kinds();
    let mut out: Vec<Cluster> = Vec::new();
    let mut t: usize = 0;
    while t < kinds.len()
        invariant
            kinds@.no_duplicates(),
            forall|k: ClusterKind| kinds@.contains(k),
            t <= kinds.len(),
            clusters_sorted(out@),
            forall|i: int|
                0 <= i < out@.len() ==> cluster_ok(protos@, #[trigger] out@[i])
                    && kinds@.take(t as int).contains(out@[i].kind),
            forall|k: ClusterKind, s: ScopeSpec|
                #[trigger] is_cluster_key(protos@, k, s) && kinds@.take(t as int).contains(k)
                    ==> has_key(out@, k, s),
        decreases kinds.len() - t,
    {
        proof {
            if kinds@.take(t as int).contains(kinds@[t as int]) {
                let m = choose|m: int| 0 <= m < t && kinds@.take(t as int)[m] == kinds@[t as int];
                assert(kinds@[m] == kinds@[t as int]);
            }
        }
        add_kind_clusters(&protos, kinds[t], &mut out, Ghost(kinds@.take(t as int)));
        assert(kinds@.take(t + 1) == kinds@.take(t as int).push(kinds@[t as int]));
        t += 1;
    }
    proof {
        assert(kinds@.take(kinds.len() as int) == kinds@);
    }
    out
}

/// `out` is the clustering of `ps`: every cluster is one of the keys of
/// `ps`, built from its members; every key has a cluster; the clusters are
/// in output order.
pub open spec fn is_clustering(ps: Seq<ProtoClause>, out: Seq<Cluster>) -> bool {
    &&& forall|i: int| 0 <= i < out.len() ==> cluster_ok(ps, #[trigger] out[i])
    &&& forall|k: ClusterKind, s: ScopeSpec| #[trigger]
        is_cluster_key(ps, k, s) ==> has_key(out, k, s)
    &&& clusters_sorted(out)
}

// ---------------------------------------------------------------------------
// Laws of the clustering
// ---------------------------------------------------------------------------
/// The set of handlers contributing a kind is finite.
pub proof fn lemma_kind_handlers_finite(ps: Seq<ProtoClause>, kind: ClusterKind)
    ensures
        kind_handlers(ps, kind).finite(),
{
    let all = ps.map_values(|p: ProtoClause| p.handler@).to_set();
    vstd::seq_lib::seq_to_set_is_finite(ps.map_values(|p: ProtoClause| p.handler@));
    assert forall|h: Seq<char>| kind_handlers(ps, kind).contains(h) implies all.contains(h) by {
        let i = choose|i: int| 0 <= i < ps.len() && ps[i].kind == kind && ps[i].handler@ == h;
        assert(ps.map_values(|p: ProtoClause| p.handler@)[i] == h);
    }
    vstd::set_lib::lemma_set_subset_finite(all, kind_handlers(ps, kind));
}

/// Program-scope clusters come before every handler-scope cluster.
pub proof fn lemma_program_scope_first(ps: Seq<ProtoClause>, out: Seq<Cluster>, i: int, j: int)
    requires
        is_clustering(ps, out),
        0 <= i < j < out.len(),
        out[j].scope@ is Program,
    ensures
        out[i].scope@ is Program,
{
    assert(key_before(out[i].kind, out[i].scope@, out[j].kind, out[j].scope@));
}

/// No two clusters share a `(kind, scope)` key.
pub proof fn lemma_keys_unique(ps: Seq<ProtoClause>, out: Seq<Cluster>, i: int, j: int)
    requires
        is_clustering(ps, out),
        0 <= i < out.len(),
        0 <= j < out.len(),
        out[i].kind == out[j].kind,
        out[i].scope@ == out[j].scope@,
    ensures
        i == j,
{
    if i < j {
        assert(key_before(out[i].kind, out[i].scope@, out[j].kind, out[j].scope@));
        lemma_key_before_irreflexive(out[i].kind, out[i].scope@);
    } else if j < i {
        assert(key_before(out[j].kind, out[j].scope@, out[i].kind, out[i].scope@));
        lemma_key_before_irreflexive(out[i].kind, out[i].scope@);
    }
}

/// Scope promotion: when at least three distinct handlers contribute a
/// kind, its findings form one program-scope cluster and the kind has no
/// handler-scope cluster; with fewer, each contributing handler has its own
/// cluster and the kind has no program-scope cluster.
pub proof fn lemma_promotion(ps: Seq<ProtoClause>, out: Seq<Cluster>, kind: ClusterKind)
    requires
        is_clustering(ps, out),
    ensures
        kind_handlers(ps, kind).len() >= PROGRAM_SCOPE_PROMOTION_THRESHOLD ==> has_key(out, kind, ScopeSpec::Program) && forall|
            i: int,
        | 0 <= i < out.len() && #[trigger] out[i].kind == kind ==> out[i].scope@ is Program,
        kind_handlers(ps, kind).len() < PROGRAM_SCOPE_PROMOTION_THRESHOLD ==> !has_key(out, kind, ScopeSpec::Program) && forall|
            h: Seq<char>,
        | #[trigger] has_key(out, kind, ScopeSpec::Handler(h)) <==> kind_handlers(
            ps,
            kind,
        ).contains(h),
{
    lemma_kind_handlers_finite(ps, kind);
    if kind_handlers(ps, kind).len() >= PROGRAM_SCOPE_PROMOTION_THRESHOLD {
        assert(is_cluster_key(ps, kind, ScopeSpec::Program));
        assert forall|i: int| 0 <= i < out.len() && #[trigger] out[i].kind == kind implies out[i].scope@ is Program by {
            assert(cluster_ok(ps, out[i]));
        }
    } else {
        if has_key(out, kind, ScopeSpec::Program) {
            let i = choose|i: int|
                0 <= i < out.len() && #[trigger] out[i].kind == kind && out[i].scope@
                    == ScopeSpec::Program;
            assert(cluster_ok(ps, out[i]));
        }
        assert forall|h: Seq<char>| #[trigger]
            has_key(out, kind, ScopeSpec::Handler(h)) <==> kind_handlers(ps, kind).contains(h) by {
            if has_key(out, kind, ScopeSpec::Handler(h)) {
                let i = choose|i: int|
                    0 <= i < out.len() && #[trigger] out[i].kind == kind && out[i].scope@
                        == ScopeSpec::Handler(h);
                assert(cluster_ok(ps, out[i]));
            }
            if kind_handlers(ps, kind).contains(h) {
                assert(is_cluster_key(ps, kind, ScopeSpec::Handler(h)));
            }
        }
    }
}

/// Every finding of the input lands in the cluster of its kind: at program
/// scope when the kind is promoted, else at its handler's scope.
pub proof fn lemma_finding_placement(ps: Seq<ProtoClause>, out: Seq<Cluster>, p: int)
    requires
        is_clustering(ps, out),
        0 <= p < ps.len(),
    ensures
        exists|i: int|
            0 <= i < out.len() && #[trigger] out[i].kind == ps[p].kind && out[i].scope@ == (if promoted(
                ps,
                ps[p].kind,
            ) {
                ScopeSpec::Program
            } else {
                ScopeSpec::Handler(ps[p].handler@)
            }) && strings(out[i].finding_ids@).contains(ps[p].finding_id@),
{
    let k = ps[p].kind;
    let s = if promoted(ps, k) {
        ScopeSpec::Program
    } else {
        ScopeSpec::Handler(ps[p].handler@)
    };
    assert(kind_handlers(ps, k).contains(ps[p].handler@));
    assert(is_cluster_key(ps, k, s));
    let i = choose|i: int| 0 <= i < out.len() && #[trigger] out[i].kind == k && out[i].scope@ == s;
    assert(cluster_ok(ps, out[i]));
    assert(member_ids(ps, k, s).contains(ps[p].finding_id@));
    assert(strings(out[i].finding_ids@).to_set().contains(ps[p].finding_id@));
}

/// A strictly ascending sequence has no repeated element.
proof fn lemma_ascending_no_duplicates(s: Seq<Seq<char>>)
    requires
        strictly_ascending(s),
    ensures
        s.no_duplicates(),
{
    assert forall|i: int, j: int| 0 <= i < s.len() && 0 <= j < s.len() && i != j implies s[i]
        != s[j] by {
        if i < j {
            assert(lex_lt(s[i], s[j]));
        } else {
            assert(lex_lt(s[j], s[i]));
        }
        lemma_lex_lt_irreflexive(s[i]);
    }
}

/// The evidence count of a cluster is the number of distinct findings among
/// its proto-clauses, and is at least one.
pub proof fn lemma_evidence_count(ps: Seq<ProtoClause>, out: Seq<Cluster>, i: int)
    requires
        is_clustering(ps, out),
        0 <= i < out.len(),
    ensures
        member_ids(ps, out[i].kind, out[i].scope@).finite(),
        out[i].evidence_count == member_ids(ps, out[i].kind, out[i].scope@).len(),
        out[i].evidence_count >= 1,
{
    let c = out[i];
    assert(cluster_ok(ps, c));
    let ids = strings(c.finding_ids@);
    lemma_ascending_no_duplicates(ids);
    ids.unique_seq_to_set();
    vstd::seq_lib::seq_to_set_is_finite(ids);
    assert(is_cluster_key(ps, c.kind, c.scope@));
    let h = match c.scope@ {
        ScopeSpec::Handler(h) => h,
        ScopeSpec::Program => kind_handlers(ps, c.kind).choose(),
    };
    if c.scope@ is Program {
        lemma_kind_handlers_finite(ps, c.kind);
        assert(kind_handlers(ps, c.kind).len() > 0);
        vstd::set_lib::axiom_is_empty_len0(kind_handlers(ps, c.kind));
    }
    assert(kind_handlers(ps, c.kind).contains(h));
    let m = choose|m: int| 0 <= m < ps.len() && ps[m].kind == c.kind && ps[m].handler@ == h;
    assert(member_ids(ps, c.kind, c.scope@).contains(ps[m].finding_id@));
    assert(ids.to_set().contains(ps[m].finding_id@));
}

/// No proto-clauses, no clusters.
pub proof fn lemma_empty_input(ps: Seq<ProtoClause>, out: Seq<Cluster>)
    requires
        is_clustering(ps, out),
        ps.len() == 0,
    ensures
        out.len() == 0,
{
    if out.len() > 0 {
        lemma_evidence_count(ps, out, 0);
        let c = out[0];
        let id = strings(c.finding_ids@)[0];
        assert(strings(c.finding_ids@).to_set().contains(id));
    }
}

/// The id of a cluster depends on its kind and scope alone: any two
/// clusters with the same key, from any two inputs, have the same id.
pub proof fn lemma_id_depends_on_key_alone(
    ps1: Seq<ProtoClause>,
    out1: Seq<Cluster>,
    i: int,
    ps2: Seq<ProtoClause>,
    out2: Seq<Cluster>,
    j: int,
)
    requires
        is_clustering(ps1, out1),
        is_clustering(ps2, out2),
        0 <= i < out1.len(),
        0 <= j < out2.len(),
        out1[i].kind == out2[j].kind,
        out1[i].scope@ == out2[j].scope@,
    ensures
        out1[i].id@ == out2[j].id@,
{
    assert(cluster_ok(ps1, out1[i]));
    assert(cluster_ok(ps2, out2[j]));
}

/// Two sequences, each strictly ascending in the same strict order, that hold
/// the same elements are equal.
pub(crate) proof fn lemma_sorted_unique<A>(a: Seq<A>, b: Seq<A>, lt: spec_fn(A, A) -> bool)
    requires
        forall|x: A| !#[trigger] lt(x, x),
        forall|x: A, y: A, z: A| #[trigger] lt(x, y) && #[trigger] lt(y, z) ==> lt(x, z),
        forall|i: int, j: int| 0 <= i < j < a.len() ==> lt(#[trigger] a[i], #[trigger] a[j]),
        forall|i: int, j: int| 0 <= i < j < b.len() ==> lt(#[trigger] b[i], #[trigger] b[j]),
        forall|x: A| a.contains(x) <==> b.contains(x),
    ensures
        a == b,
    decreases a.len(),
{
    if a.len() == 0 {
        if b.len() > 0 {
            assert(b.contains(b[0]));
        }
        assert(b =~= a);
    } else if b.len() == 0 {
        assert(a.contains(a[0]));
    } else {
        if a[0] != b[0] {
            assert(a.contains(a[0]));
            let k = choose|k: int| 0 <= k < b.len() && b[k] == a[0];
            assert(b.contains(b[0]));
            let m = choose|m: int| 0 <= m < a.len() && a[m] == b[0];
            assert(lt(b[0], b[k]));
            assert(lt(a[0], a[m]));
        }
        let ta = a.drop_first();
        let tb = b.drop_first();
        assert forall|x: A| ta.contains(x) <==> tb.contains(x) by {
            if ta.contains(x) {
                let i = choose|i: int| 0 <= i < ta.len() && ta[i] == x;
                assert(a[i + 1] == x);
                assert(lt(a[0], a[i + 1]));
                assert(b.contains(x));
                let j = choose|j: int| 0 <= j < b.len() && b[j] == x;
                if j == 0 {
                    assert(!lt(x, x));
                }
                assert(tb[j - 1] == x);
            }
            if tb.contains(x) {
                let i = choose|i: int| 0 <= i < tb.len() && tb[i] == x;
                assert(b[i + 1] == x);
                assert(lt(b[0], b[i + 1]));
                assert(a.contains(x));
                let j = choose|j: int| 0 <= j < a.len() && a[j] == x;
                if j == 0 {
                    assert(!lt(x, x));
                }
                assert(ta[j - 1] == x);
            }
        }
        assert forall|i: int, j: int| 0 <= i < j < ta.len() implies lt(#[trigger] ta[i], #[trigger] ta[j]) by {
            assert(lt(a[i + 1], a[j + 1]));
        }
        assert forall|i: int, j: int| 0 <= i < j < tb.len() implies lt(#[trigger] tb[i], #[trigger] tb[j]) by {
            assert(lt(b[i + 1], b[j + 1]));
        }
        lemma_sorted_unique(ta, tb, lt);
        assert(a =~= seq![a[0]] + ta);
        assert(b =~= seq![b[0]] + tb);
    }
}

/// Two clusters agree on key, findings, confidence, id and every text.
pub open spec fn same_cluster(c: Cluster, d: Cluster) -> bool {
    &&& c.kind == d.kind
    &&& c.scope@ == d.scope@
    &&& c.id@ == d.id@
    &&& strings(c.finding_ids@) == strings(d.finding_ids@)
    &&& c.evidence_count == d.evidence_count
    &&& c.confidence == d.confidence
    &&& c.proto_clause_text@ == d.proto_clause_text@
    &&& c.suggested_syntax@ == d.suggested_syntax@
    &&& c.question_md@ == d.question_md@
    &&& c.writes_on_accept@ == d.writes_on_accept@
    &&& c.writes_on_narrow@ == d.writes_on_narrow@
    &&& c.writes_on_reject@ == d.writes_on_reject@
    &&& c.writes_on_bug@ == d.writes_on_bug@
}

pub open spec fn cluster_keys(out: Seq<Cluster>) -> Seq<(ClusterKind, ScopeSpec)> {
    out.map_values(|c: Cluster| (c.kind, c.scope@))
}

/// The clustering is a function of its input: two clusterings of the same
/// proto-clauses agree cluster by cluster, in the same order.
pub proof fn lemma_clustering_deterministic(ps: Seq<ProtoClause>, a: Seq<Cluster>, b: Seq<Cluster>)
    requires
        is_clustering(ps, a),
        is_clustering(ps, b),
    ensures
        a.len() == b.len(),
        forall|i: int| 0 <= i < a.len() ==> same_cluster(#[trigger] a[i], b[i]),
{
    let lt = |x: (ClusterKind, ScopeSpec), y: (ClusterKind, ScopeSpec)| key_before(x.0, x.1, y.0, y.1);
    assert forall|x: (ClusterKind, ScopeSpec)| !#[trigger] lt(x, x) by {
        lemma_key_before_irreflexive(x.0, x.1);
    }
    assert forall|x: (ClusterKind, ScopeSpec), y: (ClusterKind, ScopeSpec), z: (ClusterKind, ScopeSpec)|
        #[trigger] lt(x, y) && #[trigger] lt(y, z) implies lt(x, z) by {
        lemma_key_before_transitive(x.0, x.1, y.0, y.1, z.0, z.1);
    }
    let ka = cluster_keys(a);
    let kb = cluster_keys(b);
    assert forall|i: int, j: int| 0 <= i < j < ka.len() implies lt(#[trigger] ka[i], #[trigger] ka[j]) by {
        assert(key_before(a[i].kind, a[i].scope@, a[j].kind, a[j].scope@));
    }
    assert forall|i: int, j: int| 0 <= i < j < kb.len() implies lt(#[trigger] kb[i], #[trigger] kb[j]) by {
        assert(key_before(b[i].kind, b[i].scope@, b[j].kind, b[j].scope@));
    }
    assert forall|x: (ClusterKind, ScopeSpec)| ka.contains(x) <==> kb.contains(x) by {
        if ka.contains(x) {
            let i = choose|i: int| 0 <= i < ka.len() && ka[i] == x;
            assert(cluster_ok(ps, a[i]));
            assert(is_cluster_key(ps, x.0, x.1));
            let j = choose|j: int| 0 <= j < b.len() && #[trigger] b[j].kind == x.0 && b[j].scope@ == x.1;
            assert(kb[j] == x);
        }
        if kb.contains(x) {
            let i = choose|i: int| 0 <= i < kb.len() && kb[i] == x;
            assert(cluster_ok(ps, b[i]));
            assert(is_cluster_key(ps, x.0, x.1));
            let j = choose|j: int| 0 <= j < a.len() && #[trigger] a[j].kind == x.0 && a[j].scope@ == x.1;
            assert(ka[j] == x);
        }
    }
    lemma_sorted_unique(ka, kb, lt);
    assert(ka.len() == kb.len());
    let slt = |x: Seq<char>, y: Seq<char>| lex_lt(x, y);
    assert forall|x: Seq<char>| !#[trigger] slt(x, x) by {
        lemma_lex_lt_irreflexive(x);
    }
    assert forall|x: Seq<char>, y: Seq<char>, z: Seq<char>|
        #[trigger] slt(x, y) && #[trigger] slt(y, z) implies slt(x, z) by {
        lemma_lex_lt_transitive(x, y, z);
    }
    assert forall|i: int| 0 <= i < a.len() implies same_cluster(#[trigger] a[i], b[i]) by {
        assert(ka[i] == kb[i]);
        assert(cluster_ok(ps, a[i]));
        assert(cluster_ok(ps, b[i]));
        let ia = strings(a[i].finding_ids@);
        let ib = strings(b[i].finding_ids@);
        assert forall|p: int, q: int| 0 <= p < q < ia.len() implies slt(#[trigger] ia[p], #[trigger] ia[q]) by {
            assert(lex_lt(ia[p], ia[q]));
        }
        assert forall|p: int, q: int| 0 <= p < q < ib.len() implies slt(#[trigger] ib[p], #[trigger] ib[q]) by {
            assert(lex_lt(ib[p], ib[q]));
        }
        assert forall|x: Seq<char>| ia.contains(x) <==> ib.contains(x) by {
            assert(ia.to_set().contains(x) == ib.to_set().contains(x));
        }
        lemma_sorted_unique(ia, ib, slt);
    }
}

/// Every cluster of a clustering is built from its members: its key is a
/// key of the input; its finding ids are those of its members, ascending and
/// each once; its evidence count is their number and sets its confidence;
/// its id is the id of its key; its question holds a `## ` header, its
/// proto-clause text and the `accept`, `reject` and `bug` checkboxes; and a
/// reject or a bug is written to the fixed planning and findings paths.
pub proof fn lemma_cluster_fields(ps: Seq<ProtoClause>, out: Seq<Cluster>, i: int)
    requires
        is_clustering(ps, out),
        0 <= i < out.len(),
    ensures
        is_cluster_key(ps, out[i].kind, out[i].scope@),
        strictly_ascending(strings(out[i].finding_ids@)),
        strings(out[i].finding_ids@).to_set() == member_ids(ps, out[i].kind, out[i].scope@),
        out[i].evidence_count == out[i].finding_ids.len(),
        out[i].confidence == confidence_for(out[i].evidence_count as nat),
        out[i].id@ == cluster_id(out[i].kind, out[i].scope@),
        starts_with(out[i].question_md@, "## "@),
        contains(out[i].question_md@, out[i].proto_clause_text@),
        contains(out[i].question_md@, "- [ ] **accept**"@),
        contains(out[i].question_md@, "- [ ] **reject**"@),
        contains(out[i].question_md@, "- [ ] **bug**"@),
        out[i].writes_on_reject@ == ".qed/plan/scoping.md"@,
        out[i].writes_on_bug@ == ".qed/findings/"@,
{
    let c = out[i];
    assert(cluster_ok(ps, c));
    lemma_template_question(c.kind, c.scope@, c.evidence_count as nat);
}

} // verus!
