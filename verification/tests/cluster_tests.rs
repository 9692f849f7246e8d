use qedgen::cluster::{
    cluster_id_from_digest, compute_cluster_id, score_confidence, ClusterKind, ClusterScope,
    Confidence, ProtoClause,
};
use qedgen::clustering::cluster_protos;
use qedgen::template::{indent_spec, render_question, render_template, template_with_handler};

fn proto(kind: ClusterKind, handler: &str, finding_id: &str) -> ProtoClause {
    ProtoClause {
        kind,
        handler: handler.to_string(),
        finding_id: finding_id.to_string(),
        evidence_text: String::new(),
    }
}

#[test]
fn kind_as_str_round_trips_all_fourteen() {
    let all = [
        ClusterKind::AccountOwnerCheck,
        ClusterKind::AccountInitCheck,
        ClusterKind::AccountSignerCheck,
        ClusterKind::AccountTypeTagCheck,
        ClusterKind::AccountDistinct,
        ClusterKind::ArithmeticNoOverflow,
        ClusterKind::ArithmeticBoundPre,
        ClusterKind::PdaCanonicalDerivation,
        ClusterKind::PdaSeedUniqueness,
        ClusterKind::LifecycleOneShot,
        ClusterKind::LifecycleMonotonic,
        ClusterKind::CpiProgramPin,
        ClusterKind::CpiAccountDirection,
        ClusterKind::DispatchCallerEstablishesCalleeRequires,
    ];
    let mut seen = std::collections::HashSet::new();
    for k in all {
        let s = k.as_str();
        assert!(!s.is_empty(), "{:?} has empty as_str", k);
        assert!(seen.insert(s), "{:?} collides with another variant's as_str = {}", k, s);
    }
    assert_eq!(seen.len(), 14, "expected 14 distinct cluster kinds");
}

#[test]
fn scope_as_key_distinguishes_program_vs_handler() {
    assert_eq!(ClusterScope::Program.as_key(), "program");
    assert_eq!(
        ClusterScope::Handler("process_transfer".into()).as_key(),
        "handler:process_transfer"
    );
}

#[test]
fn promotes_to_program_scope_when_three_handlers_share_kind() {
    let protos = vec![
        proto(ClusterKind::AccountOwnerCheck, "transfer", "f1"),
        proto(ClusterKind::AccountOwnerCheck, "burn", "f2"),
        proto(ClusterKind::AccountOwnerCheck, "mint_to", "f3"),
    ];
    let clusters = cluster_protos(protos);
    assert_eq!(clusters.len(), 1, "expected one Program-scope cluster");
    assert_eq!(clusters[0].kind, ClusterKind::AccountOwnerCheck);
    assert_eq!(clusters[0].scope, ClusterScope::Program);
    assert_eq!(clusters[0].evidence_count, 3);
}

#[test]
fn keeps_handler_scope_when_only_two_handlers_share_kind() {
    let protos = vec![
        proto(ClusterKind::AccountOwnerCheck, "transfer", "f1"),
        proto(ClusterKind::AccountOwnerCheck, "burn", "f2"),
    ];
    let clusters = cluster_protos(protos);
    assert_eq!(clusters.len(), 2, "expected two Handler-scope clusters");
    assert!(clusters
        .iter()
        .all(|c| matches!(c.scope, ClusterScope::Handler(_))));
}

#[test]
fn deduplicates_finding_ids_within_a_cluster() {
    let protos = vec![
        proto(ClusterKind::AccountOwnerCheck, "transfer", "f1"),
        proto(ClusterKind::AccountOwnerCheck, "transfer", "f1"),
    ];
    let clusters = cluster_protos(protos);
    assert_eq!(clusters.len(), 1);
    assert_eq!(clusters[0].evidence_count, 1);
    assert_eq!(clusters[0].finding_ids, vec!["f1"]);
}

#[test]
fn cluster_id_is_deterministic_across_runs() {
    let protos1 = vec![
        proto(ClusterKind::AccountOwnerCheck, "transfer", "f1"),
        proto(ClusterKind::AccountOwnerCheck, "burn", "f2"),
        proto(ClusterKind::AccountOwnerCheck, "mint_to", "f3"),
    ];
    let protos2 = protos1.clone();
    let c1 = cluster_protos(protos1);
    let c2 = cluster_protos(protos2);
    assert_eq!(c1[0].id, c2[0].id);
}

#[test]
fn cluster_id_independent_of_evidence_count() {
    let protos_few = vec![
        proto(ClusterKind::AccountOwnerCheck, "transfer", "f1"),
        proto(ClusterKind::AccountOwnerCheck, "burn", "f2"),
        proto(ClusterKind::AccountOwnerCheck, "mint_to", "f3"),
    ];
    let protos_many = {
        let mut v = protos_few.clone();
        v.extend([
            proto(ClusterKind::AccountOwnerCheck, "approve", "f4"),
            proto(ClusterKind::AccountOwnerCheck, "freeze", "f5"),
        ]);
        v
    };
    let id_few = cluster_protos(protos_few)[0].id.clone();
    let id_many = cluster_protos(protos_many)[0].id.clone();
    assert_eq!(id_few, id_many, "cluster ID must be scope-stable");
}

#[test]
fn confidence_scales_with_evidence_count() {
    let one = cluster_protos(vec![proto(ClusterKind::AccountInitCheck, "h", "f1")]);
    assert_eq!(one[0].confidence, Confidence::Low);

    let three: Vec<_> = (1..=3)
        .map(|i| {
            proto(
                ClusterKind::AccountInitCheck,
                &format!("h{}", i),
                &format!("f{}", i),
            )
        })
        .collect();
    let three_out = cluster_protos(three);
    assert_eq!(three_out[0].confidence, Confidence::Medium);

    let five: Vec<_> = (1..=5)
        .map(|i| {
            proto(
                ClusterKind::AccountInitCheck,
                &format!("h{}", i),
                &format!("f{}", i),
            )
        })
        .collect();
    let five_out = cluster_protos(five);
    assert_eq!(five_out[0].confidence, Confidence::High);
}

#[test]
fn output_order_is_stable_program_first_then_handler() {
    let protos = vec![
        proto(ClusterKind::AccountInitCheck, "h_alone", "f1"),
        proto(ClusterKind::AccountOwnerCheck, "transfer", "f2"),
        proto(ClusterKind::AccountOwnerCheck, "burn", "f3"),
        proto(ClusterKind::AccountOwnerCheck, "mint_to", "f4"),
    ];
    let clusters = cluster_protos(protos);
    assert!(matches!(clusters[0].scope, ClusterScope::Program));
    assert_eq!(clusters[0].kind, ClusterKind::AccountOwnerCheck);
    for c in &clusters[1..] {
        assert!(matches!(c.scope, ClusterScope::Handler(_)));
    }
}

#[test]
fn rendered_template_includes_evidence_count_and_options() {
    let protos: Vec<_> = (1..=4)
        .map(|i| {
            proto(
                ClusterKind::AccountOwnerCheck,
                &format!("h{}", i),
                &format!("f{}", i),
            )
        })
        .collect();
    let clusters = cluster_protos(protos);
    let c = &clusters[0];
    assert!(c.question_md.contains("**accept**"));
    assert!(c.question_md.contains("**reject**"));
    assert!(c.question_md.contains("**bug**"));
    assert!(c.question_md.contains("**narrow**"));
    assert!(c.question_md.contains("4"), "want '4' in {}", c.question_md);
}

#[test]
fn handler_scope_writes_to_specific_handler_path() {
    let protos = vec![proto(ClusterKind::AccountOwnerCheck, "transfer", "f1")];
    let clusters = cluster_protos(protos);
    assert_eq!(clusters[0].writes_on_accept, "spec.handlers.transfer.requires");
}

#[test]
fn empty_input_produces_empty_clusters() {
    assert!(cluster_protos(vec![]).is_empty());
}

// ---------------------------------------------------------------------------
// Further cases
// ---------------------------------------------------------------------------

#[test]
fn cluster_id_has_digest_prefix_kind_and_scope() {
    let id = compute_cluster_id(ClusterKind::AccountOwnerCheck, &ClusterScope::Program);
    assert_eq!(id, "c-f3ca550e-account_owner_check-program");
    let id = compute_cluster_id(
        ClusterKind::AccountSignerCheck,
        &ClusterScope::Handler("transfer".to_string()),
    );
    assert_eq!(id, "c-cbd9531a-account_signer_check-handler:transfer");
}

#[test]
fn cluster_id_from_given_digest() {
    let digest = vec![0x0a, 0xbc, 0x00, 0xff, 0x12];
    let id = cluster_id_from_digest(
        ClusterKind::CpiProgramPin,
        &ClusterScope::Handler("swap".to_string()),
        &digest,
    );
    assert_eq!(id, "c-0abc00ff-cpi_program_pin-handler:swap");
}

#[test]
fn cluster_ids_differ_by_scope() {
    let a = compute_cluster_id(ClusterKind::AccountOwnerCheck, &ClusterScope::Program);
    let b = compute_cluster_id(
        ClusterKind::AccountOwnerCheck,
        &ClusterScope::Handler("program".to_string()),
    );
    assert_ne!(a, b);
}

#[test]
fn confidence_thresholds() {
    assert_eq!(score_confidence(0), Confidence::Low);
    assert_eq!(score_confidence(1), Confidence::Low);
    assert_eq!(score_confidence(2), Confidence::Medium);
    assert_eq!(score_confidence(4), Confidence::Medium);
    assert_eq!(score_confidence(5), Confidence::High);
    assert_eq!(score_confidence(64), Confidence::High);
}

#[test]
fn clusters_sorted_by_kind_name_then_scope_key() {
    let protos = vec![
        proto(ClusterKind::PdaSeedUniqueness, "zeta", "f1"),
        proto(ClusterKind::AccountDistinct, "beta", "f2"),
        proto(ClusterKind::AccountDistinct, "alpha", "f3"),
        proto(ClusterKind::CpiProgramPin, "a", "f4"),
        proto(ClusterKind::CpiProgramPin, "b", "f5"),
        proto(ClusterKind::CpiProgramPin, "c", "f6"),
    ];
    let clusters = cluster_protos(protos);
    let keys: Vec<(String, String)> = clusters
        .iter()
        .map(|c| (c.kind.as_str().to_string(), c.scope.as_key()))
        .collect();
    assert_eq!(
        keys,
        vec![
            ("cpi_program_pin".to_string(), "program".to_string()),
            ("account_distinct".to_string(), "handler:alpha".to_string()),
            ("account_distinct".to_string(), "handler:beta".to_string()),
            ("pda_seed_uniqueness".to_string(), "handler:zeta".to_string()),
        ]
    );
}

#[test]
fn program_cluster_gathers_every_finding_of_its_kind_sorted() {
    let protos = vec![
        proto(ClusterKind::AccountOwnerCheck, "transfer", "f9"),
        proto(ClusterKind::AccountOwnerCheck, "burn", "f2"),
        proto(ClusterKind::AccountOwnerCheck, "mint_to", "f5"),
        proto(ClusterKind::AccountOwnerCheck, "burn", "f2"),
        proto(ClusterKind::AccountOwnerCheck, "burn", "f10"),
    ];
    let clusters = cluster_protos(protos);
    assert_eq!(clusters.len(), 1);
    assert_eq!(clusters[0].finding_ids, vec!["f10", "f2", "f5", "f9"]);
    assert_eq!(clusters[0].evidence_count, 4);
    assert_eq!(clusters[0].confidence, Confidence::Medium);
    assert_eq!(clusters[0].writes_on_reject, ".qed/plan/scoping.md");
    assert_eq!(clusters[0].writes_on_bug, ".qed/findings/");
    assert_eq!(clusters[0].writes_on_accept, "spec.invariants");
    assert_eq!(clusters[0].writes_on_narrow, "spec.handlers.*.requires");
}

#[test]
fn each_finding_lands_in_one_cluster() {
    let protos = vec![
        proto(ClusterKind::AccountInitCheck, "a", "f1"),
        proto(ClusterKind::AccountInitCheck, "b", "f2"),
        proto(ClusterKind::AccountSignerCheck, "a", "f3"),
    ];
    let clusters = cluster_protos(protos);
    assert_eq!(clusters.len(), 3);
    for f in ["f1", "f2", "f3"] {
        let n = clusters
            .iter()
            .filter(|c| c.finding_ids.iter().any(|x| x == f))
            .count();
        assert_eq!(n, 1);
    }
}

#[test]
fn handler_question_has_no_narrow_option() {
    let q = render_question(
        "owner_check",
        "Handler `transfer` expects account.owner == self_program_id",
        "_unchecked load",
        2,
        &ClusterScope::Handler("transfer".to_string()),
        "per-handler precondition",
    );
    assert_eq!(
        q,
        "## owner_check\n\nHandler `transfer` expects account.owner == self_program_id\n\n2 _unchecked load site(s) in handler `transfer` imply this per-handler precondition.\n\n- [ ] **accept** — emit the suggested clause into the spec\n- [ ] **reject** — over-claim; drop with rationale below\n- [ ] **bug** — flag as missing enforcement (not a spec clause)\n\n_notes:_\n\n"
    );
}

#[test]
fn program_question_offers_narrow() {
    let q = render_question("x", "Proto.", "site", 12, &ClusterScope::Program, "summary");
    assert!(q.starts_with("## x\n\nProto.\n\n12 site site(s) across the program imply this summary.\n\n"));
    assert!(q.contains("- [ ] **narrow** — emit per-handler `requires` clauses instead\n"));
}

#[test]
fn indent_spec_indents_non_empty_lines() {
    assert_eq!(indent_spec("a\n\nb\n"), "  a\n\n  b\n");
    assert_eq!(indent_spec("x"), "  x\n");
    assert_eq!(indent_spec(""), "\n");
}

#[test]
fn owner_check_program_template() {
    let t = render_template(ClusterKind::AccountOwnerCheck, &ClusterScope::Program, 3);
    assert_eq!(t.proto_text, "Accounts whose owner ≠ self_program_id are read-only");
    assert_eq!(
        t.syntax,
        "  invariant owner_locked_writes\n    forall a in accounts: a.owner != self_program_id implies preserved(a.data) and preserved(a.lamports)\n"
    );
    assert_eq!(t.writes_on_accept, "spec.invariants");
}

#[test]
fn arithmetic_handler_template() {
    let t = render_template(
        ClusterKind::ArithmeticNoOverflow,
        &ClusterScope::Handler("swap".to_string()),
        1,
    );
    assert_eq!(t.proto_text, "Handler `swap` uses checked arithmetic on amounts/lamports");
    assert_eq!(t.writes_on_accept, "spec.handlers.swap.effects.op");
    assert_eq!(t.writes_on_narrow, "spec.handlers.swap.effects.op");
    assert!(t.syntax.starts_with("  // (added to handler swap) — use `+=`"));
}

#[test]
fn generic_template_both_scopes() {
    let p = template_with_handler(
        "inv",
        "Proto",
        "  body\n",
        "requires x",
        &ClusterScope::Program,
        2,
        "site",
    );
    assert_eq!(p.proto_text, "Proto");
    assert_eq!(p.syntax, "invariant inv\n  body\n");
    let h = template_with_handler(
        "inv",
        "Proto",
        "  body\n",
        "requires x",
        &ClusterScope::Handler("h".to_string()),
        2,
        "site",
    );
    assert_eq!(h.proto_text, "Handler `h`: Proto");
    assert_eq!(h.syntax, "  // (added to handler h)\n  requires x\n");
    assert_eq!(h.writes_on_accept, "spec.handlers.h.requires");
}

#[test]
fn question_holds_header_proto_text_and_options() {
    let protos = vec![proto(ClusterKind::AccountOwnerCheck, "transfer", "f1")];
    let c = &cluster_protos(protos)[0];
    assert!(c.question_md.starts_with("## owner_check\n\n"));
    assert!(c.question_md.contains(&c.proto_clause_text));
    assert!(c.question_md.contains("- [ ] **accept**"));
    assert!(c.question_md.contains("- [ ] **reject**"));
    assert!(c.question_md.contains("- [ ] **bug**"));
    assert!(!c.question_md.contains("**narrow**"));
    let p = render_template(ClusterKind::LifecycleOneShot, &ClusterScope::Program, 7);
    assert!(p.question.contains(&p.proto_text));
}

#[test]
fn only_the_question_depends_on_the_count() {
    let scopes = [
        ClusterScope::Program,
        ClusterScope::Handler("deposit".to_string()),
    ];
    for scope in scopes.iter() {
        let one = render_template(ClusterKind::AccountSignerCheck, scope, 1);
        let two = render_template(ClusterKind::AccountSignerCheck, scope, 12);
        assert_eq!(one.proto_text, two.proto_text);
        assert_eq!(one.syntax, two.syntax);
        assert_eq!(one.writes_on_accept, two.writes_on_accept);
        assert_eq!(one.writes_on_narrow, two.writes_on_narrow);
        assert_ne!(one.question, two.question);
        assert!(one.question.contains("\n\n1 "));
        assert!(two.question.contains("\n\n12 "));
    }
}

#[test]
fn indent_spec_round_trip() {
    let s = "invariant x\n  forall a in accounts\n\nend\n";
    let r = indent_spec(s);
    assert!(r.ends_with('\n'));
    let lines: Vec<&str> = r.lines().collect();
    assert_eq!(lines.len(), s.lines().count());
    for l in lines.iter() {
        assert!(l.is_empty() || l.starts_with("  "));
    }
    let back: Vec<&str> = lines
        .iter()
        .map(|l| if l.is_empty() { *l } else { &l[2..] })
        .collect();
    assert_eq!(back.join("\n") + "\n", s);
}

#[test]
fn distinct_keys_get_distinct_ids() {
    let kinds = [
        ClusterKind::AccountOwnerCheck,
        ClusterKind::AccountInitCheck,
        ClusterKind::AccountSignerCheck,
        ClusterKind::AccountTypeTagCheck,
        ClusterKind::AccountDistinct,
        ClusterKind::ArithmeticNoOverflow,
        ClusterKind::ArithmeticBoundPre,
        ClusterKind::PdaCanonicalDerivation,
        ClusterKind::PdaSeedUniqueness,
        ClusterKind::LifecycleOneShot,
        ClusterKind::LifecycleMonotonic,
        ClusterKind::CpiProgramPin,
        ClusterKind::CpiAccountDirection,
        ClusterKind::DispatchCallerEstablishesCalleeRequires,
    ];
    let scopes = [
        ClusterScope::Program,
        ClusterScope::Handler("a".to_string()),
        ClusterScope::Handler("a-b".to_string()),
        ClusterScope::Handler("program".to_string()),
    ];
    let mut ids: Vec<String> = Vec::new();
    for k in kinds.iter() {
        for s in scopes.iter() {
            ids.push(compute_cluster_id(*k, s));
        }
    }
    let n = ids.len();
    ids.sort();
    ids.dedup();
    assert_eq!(ids.len(), n);
}

#[test]
fn handler_templates_name_their_handler() {
    let kinds = [
        ClusterKind::AccountOwnerCheck,
        ClusterKind::ArithmeticNoOverflow,
        ClusterKind::PdaSeedUniqueness,
    ];
    let scope = ClusterScope::Handler("swap".to_string());
    for k in kinds.iter() {
        let t = render_template(*k, &scope, 2);
        assert!(t.proto_text.starts_with("Handler `swap`"));
        assert!(t.syntax.starts_with("  // (added to handler swap)"));
        assert!(t.question.contains("\n\n2 "));
        assert!(!t.question.contains("**narrow**"));
    }
    let p = render_template(ClusterKind::PdaSeedUniqueness, &ClusterScope::Program, 2);
    assert!(p.question.contains("**narrow**"));
}
