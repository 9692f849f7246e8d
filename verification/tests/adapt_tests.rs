use qedgen::pinocchio_adapt::{
    account_names, adapt, discover_error_enum, dispatch_entries, error_variants,
    extract_accounts, extract_instruction_data_fields, fields_from_captures, is_pinocchio_project,
    map_type, parse_dispatch, parse_handler, parse_u8_str, read_crate_name, render_spec,
    strip_process_prefix, to_pascal_case, variants_from_captures, AdaptError,
    PinocchioInstruction, ProgramSources, SourceFile,
};
use qedgen::text::{lex_less, lines_of, trim_str};

fn sources(manifest: Option<&str>, files: &[(&str, &str)]) -> ProgramSources {
    ProgramSources {
        root_name: Some("my-dir".to_string()),
        manifest: manifest.map(|m| m.to_string()),
        files: files
            .iter()
            .map(|(p, c)| SourceFile {
                path: p.to_string(),
                contents: Some(c.to_string()),
            })
            .collect(),
    }
}

fn cap(groups: &[Option<&str>]) -> Vec<Option<String>> {
    groups.iter().map(|g| g.map(|s| s.to_string())).collect()
}

#[test]
fn is_pinocchio_project_detects_dep() {
    let s = sources(
        Some("[package]\nname=\"p\"\n[dependencies]\npinocchio=\"0.7\"\n"),
        &[],
    );
    assert!(is_pinocchio_project(&s));
}

#[test]
fn is_pinocchio_project_rejects_anchor() {
    let s = sources(
        Some("[package]\nname=\"p\"\n[dependencies]\nanchor-lang=\"0.30\"\n"),
        &[],
    );
    assert!(!is_pinocchio_project(&s));
}

#[test]
fn strip_process_prefix_works() {
    assert_eq!(strip_process_prefix("process_create_market"), "create_market");
    assert_eq!(strip_process_prefix("create_market"), "create_market");
}

#[test]
fn extract_accounts_single_line() {
    let src = "let [authority, market, bid, ask, _remaining @ ..] = accounts else { return Err(e); };";
    assert_eq!(extract_accounts(src), vec!["authority", "market", "bid", "ask"]);
}

#[test]
fn extract_accounts_multiline() {
    let src = "let [\n    authority,\n    market,\n    bid,\n    _remaining @ ..,\n] = accounts else {};";
    assert_eq!(extract_accounts(src), vec!["authority", "market", "bid"]);
}

#[test]
fn extract_instruction_data_fields_basic() {
    let src = "#[repr(C, packed)]\npub struct Foo {\n    pub offset: i64,\n    pub size: u64,\n}\n";
    let got = extract_instruction_data_fields(src);
    assert_eq!(got.len(), 2);
    assert_eq!(got[0], ("offset".to_string(), "I64".to_string()));
    assert_eq!(got[1], ("size".to_string(), "U64".to_string()));
}

#[test]
fn extract_instruction_data_skips_padding() {
    let src = "#[repr(C, packed)]\npub struct Foo {\n    pub amount: u64,\n    pub _padding: [u8; 6],\n}\n";
    let got = extract_instruction_data_fields(src);
    assert_eq!(got.len(), 1);
    assert_eq!(got[0].0, "amount");
}

#[test]
fn parse_dispatch_basic() {
    let src = "fn process_instruction(...) {\n    match instruction_data.split_first() {\n        Some((0, rest)) => process_create_market(p, a, rest),\n        Some((1, rest)) => process_place_order(p, a, rest),\n        _ => Err(e),\n    }\n}";
    let s = sources(None, &[("src/entrypoint.rs", src)]);
    let dispatch = parse_dispatch(&s).unwrap();
    assert_eq!(dispatch.len(), 2);
    assert_eq!(dispatch[0], (0, "process_create_market".to_string()));
    assert_eq!(dispatch[1], (1, "process_place_order".to_string()));
}

#[test]
fn discover_error_enum_finds_variants() {
    let s = sources(
        None,
        &[(
            "src/error.rs",
            "#[repr(u8)]\npub enum OrdrError {\n    NotEnoughAccounts = 0,\n    Unauthorized = 3,\n}\n",
        )],
    );
    let variants = discover_error_enum(&s).unwrap();
    assert!(variants.contains(&"NotEnoughAccounts".to_string()));
    assert!(variants.contains(&"Unauthorized".to_string()));
}

#[test]
fn map_type_covers_primitives() {
    assert_eq!(map_type("u64"), "U64");
    assert_eq!(map_type("i64"), "I64");
    assert_eq!(map_type("bool"), "Bool");
    assert_eq!(map_type("MyCustomType"), "U64");
}

// ---------------------------------------------------------------------------
// Further cases
// ---------------------------------------------------------------------------

#[test]
fn map_type_trims_and_covers_every_width() {
    assert_eq!(map_type("  u8 "), "U8");
    assert_eq!(map_type("u16"), "U16");
    assert_eq!(map_type("u32"), "U32");
    assert_eq!(map_type("u128"), "U128");
    assert_eq!(map_type("i8"), "I8");
    assert_eq!(map_type("i16"), "I16");
    assert_eq!(map_type("\ti32\n"), "I32");
    assert_eq!(map_type("i128"), "I128");
    assert_eq!(map_type("[u8; 32]"), "U64");
}

#[test]
fn strip_process_prefix_edge_cases() {
    assert_eq!(strip_process_prefix("process_"), "");
    assert_eq!(strip_process_prefix("process"), "process");
    assert_eq!(strip_process_prefix("my_process_x"), "my_process_x");
}

#[test]
fn pascal_case_of_snake_names() {
    assert_eq!(to_pascal_case("my_cool_program"), "MyCoolProgram");
    assert_eq!(to_pascal_case("__a__b_"), "AB");
    assert_eq!(to_pascal_case("already"), "Already");
    assert_eq!(to_pascal_case(""), "");
}

#[test]
fn u8_parsing_follows_from_str() {
    assert_eq!(parse_u8_str("0"), Some(0));
    assert_eq!(parse_u8_str("007"), Some(7));
    assert_eq!(parse_u8_str("+7"), Some(7));
    assert_eq!(parse_u8_str("255"), Some(255));
    assert_eq!(parse_u8_str("256"), None);
    assert_eq!(parse_u8_str("99999999999"), None);
    assert_eq!(parse_u8_str(""), None);
    assert_eq!(parse_u8_str("+"), None);
    assert_eq!(parse_u8_str("1a"), None);
    assert_eq!(parse_u8_str("-1"), None);
}

#[test]
fn dispatch_keeps_first_arm_per_discriminator_and_skips_results() {
    let caps = vec![
        cap(&[Some("x"), Some("2"), Some("process_b")]),
        cap(&[Some("x"), Some("0"), Some("process_a")]),
        cap(&[Some("x"), Some("2"), Some("process_c")]),
        cap(&[Some("x"), Some("1"), Some("Err")]),
        cap(&[Some("x"), Some("3"), Some("Ok")]),
        cap(&[Some("x"), Some("300"), Some("process_big")]),
    ];
    let table = dispatch_entries(&caps);
    assert_eq!(
        table,
        vec![
            (0, "process_a".to_string()),
            (2, "process_b".to_string()),
            (255, "process_big".to_string()),
        ]
    );
}

#[test]
fn parse_dispatch_reports_missing_source() {
    let s = sources(None, &[("src/other.rs", "fn main() {}")]);
    assert_eq!(parse_dispatch(&s), Err(AdaptError::DispatchSourceNotFound));
    assert_eq!(
        AdaptError::DispatchSourceNotFound.message(),
        "dispatch source not found"
    );
}

#[test]
fn parse_dispatch_reports_missing_arms() {
    let s = sources(None, &[("src/lib.rs", "match x.split_first() { _ => Err(e) }")]);
    assert_eq!(parse_dispatch(&s), Err(AdaptError::NoDispatchArms));
    assert_eq!(
        AdaptError::NoDispatchArms.message(),
        "no `Some((N, ...)) => fn_name(` arms found in dispatch"
    );
}

#[test]
fn parse_dispatch_prefers_split_first_source() {
    let s = sources(
        None,
        &[
            ("src/entrypoint.rs", "Some((5, r)) => process_e(r)"),
            ("src/lib.rs", "x.split_first(); Some((7, r)) => process_l(r)"),
        ],
    );
    assert_eq!(parse_dispatch(&s).unwrap(), vec![(7, "process_l".to_string())]);
}

#[test]
fn account_and_variant_filters() {
    let idents = vec![
        cap(&[Some("a"), Some("authority")]),
        cap(&[Some("a"), Some("mut")]),
        cap(&[Some("a"), Some("program")]),
        cap(&[Some("a"), Some("_x")]),
        cap(&[Some("a"), Some("vault")]),
    ];
    assert_eq!(account_names(&idents), vec!["authority", "vault"]);
    let vars = vec![
        cap(&[Some("a"), Some("Overflow")]),
        cap(&[Some("a"), Some("MAX")]),
        cap(&[Some("a"), Some("U8")]),
        cap(&[Some("a"), Some("Bad2")]),
    ];
    assert_eq!(variants_from_captures(&vars), vec!["Overflow", "Bad2"]);
    let fields = vec![
        cap(&[Some("a"), Some("amount"), Some("u64")]),
        cap(&[Some("a"), Some("_pad"), Some("u8")]),
        cap(&[Some("a"), Some("flag"), Some("bool")]),
    ];
    assert_eq!(
        fields_from_captures(&fields),
        vec![
            ("amount".to_string(), "U64".to_string()),
            ("flag".to_string(), "Bool".to_string()),
        ]
    );
}

#[test]
fn fields_of_nested_braces_and_empty_struct() {
    let src = "#[repr(C)]\npub struct A {\n    pub x: u8,\n    pub y: Vec<u8>,\n}\nfn f() { pub z: u64 }";
    let got = extract_instruction_data_fields(src);
    assert_eq!(
        got,
        vec![
            ("x".to_string(), "U8".to_string()),
            ("y".to_string(), "U64".to_string()),
        ]
    );
    assert!(extract_instruction_data_fields("#[repr(C)]\npub struct E {}").is_empty());
    assert!(extract_instruction_data_fields("pub struct NoRepr { pub a: u8 }").is_empty());
}

#[test]
fn error_enum_needs_error_suffix() {
    assert!(error_variants("pub enum Kind { A, B }").is_empty());
    assert_eq!(
        error_variants("pub enum MyError { BadThing, Worse }"),
        vec!["BadThing", "Worse"]
    );
}

#[test]
fn error_enum_walks_files_without_error_rs() {
    let s = sources(
        None,
        &[
            ("src/a.rs", "fn x() {}"),
            ("src/b.rs", "pub enum ProgError { Oops }"),
        ],
    );
    assert_eq!(discover_error_enum(&s), Some(vec!["Oops".to_string()]));
    let only_error_rs = sources(
        None,
        &[
            ("src/error.rs", "pub enum Nothing {}"),
            ("src/b.rs", "pub enum ProgError { Oops }"),
        ],
    );
    assert_eq!(discover_error_enum(&only_error_rs), None);
}

#[test]
fn crate_name_from_manifest() {
    let s = sources(Some("[package]\nname = \"my-prog\"\n"), &[]);
    assert_eq!(read_crate_name(&s), Some("my_prog".to_string()));
    let bad = sources(Some("this is = = not toml"), &[]);
    assert_eq!(read_crate_name(&bad), None);
    let none = sources(None, &[]);
    assert_eq!(read_crate_name(&none), None);
}

#[test]
fn unparsable_manifest_mentioning_pinocchio_does_not_count() {
    let s = sources(Some("pinocchio = = ="), &[]);
    assert!(!is_pinocchio_project(&s));
    let t = sources(Some("[package]\nname = \"pinocchio\"\n"), &[]);
    assert!(!is_pinocchio_project(&t));
    let dev = sources(Some("[dev-dependencies]\npinocchio = \"0.7\"\n"), &[]);
    assert!(!is_pinocchio_project(&dev));
    assert!(!is_pinocchio_project(&sources(None, &[])));
}

#[test]
fn handler_source_lookup_order() {
    let s = sources(
        None,
        &[
            ("src/swap.rs", "let [c] = accounts;"),
            ("src/instructions/process_swap.rs", "let [b] = accounts;"),
        ],
    );
    let (accounts, args) = parse_handler(&s, "process_swap");
    assert_eq!(accounts, vec!["b"]);
    assert!(args.is_empty());
    let (none, _) = parse_handler(&s, "process_missing");
    assert!(none.is_empty());
}

#[test]
fn render_spec_without_error_variants() {
    let ix = PinocchioInstruction {
        name: "init".to_string(),
        discriminator: 0,
        accounts: vec![],
        args: vec![],
    };
    let out = render_spec("tiny", &vec![ix], None);
    assert_eq!(
        out,
        "// Generated by `qedgen adapt` (Pinocchio). Fill in the TODOs to make this verifiable.\n\nspec Tiny\n\n// TODO: replace with the actual lifecycle of your program.\ntype State\n  | Init\n  | Active\n\n// TODO: list domain errors raised by the handlers below.\ntype Error\n  | InvalidArgument\n\n/// `init` (discriminator 0): native Pinocchio handler\n/// source: src/instructions/init.rs\nhandler init : State.Init -> State.Init {\n  // TODO: accounts { ... }\n  // TODO: auth <signer>\n  // TODO: requires\n  // TODO: effect { ... }\n}\n\n"
    );
}

#[test]
fn adapt_renders_whole_program() {
    let s = sources(
        Some("[package]\nname = \"order-book\"\n[dependencies]\npinocchio = \"0.7\"\n"),
        &[
            (
                "src/entrypoint.rs",
                "match data.split_first() {\n Some((1, r)) => process_place(p, a, r),\n Some((0, r)) => process_init(p, a, r),\n _ => Err(e),\n}",
            ),
            (
                "src/instructions/place.rs",
                "let [owner, book, _rest @ ..] = accounts else {};\n#[repr(C)]\npub struct Place {\n    pub price: u64,\n    pub side: bool,\n}\n",
            ),
            ("src/error.rs", "pub enum BookError { Full, Closed }"),
        ],
    );
    let out = adapt(&s).unwrap();
    assert_eq!(
        out,
        "// Generated by `qedgen adapt` (Pinocchio). Fill in the TODOs to make this verifiable.\n\nspec OrderBook\n\n// TODO: replace with the actual lifecycle of your program.\ntype State\n  | Init\n  | Active\n\n// Error variants discovered in src/error.rs.\ntype Error\n  | Full\n  | Closed\n\n/// `init` (discriminator 0): native Pinocchio handler\n/// source: src/instructions/init.rs\nhandler init : State.Init -> State.Init {\n  // TODO: accounts { ... }\n  // TODO: auth <signer>\n  // TODO: requires\n  // TODO: effect { ... }\n}\n\n/// `place` (discriminator 1): native Pinocchio handler\n/// source: src/instructions/place.rs\nhandler place (price : U64) (side : Bool) : State.Init -> State.Init {\n  // accounts: owner, book\n  // TODO: accounts { ... }\n  // TODO: auth <signer>\n  // TODO: requires\n  // TODO: effect { ... }\n}\n\n"
    );
}

#[test]
fn adapt_falls_back_to_directory_name() {
    let s = sources(None, &[("src/lib.rs", "Some((3, r)) => process_go(r)")]);
    let out = adapt(&s).unwrap();
    assert!(out.contains("spec My-dir\n"));
    assert!(adapt(&sources(None, &[])).is_err());
}

#[test]
fn text_helpers() {
    assert_eq!(trim_str("\u{3000} a b \u{2028}"), "a b");
    assert_eq!(trim_str("   "), "");
    assert!(lex_less("a", "b"));
    assert!(lex_less("ab", "abc"));
    assert!(!lex_less("b", "abc"));
    assert!(!lex_less("x", "x"));
    assert_eq!(lines_of("a\r\nb\n"), vec!["a", "b"]);
    assert_eq!(lines_of("a\r"), vec!["a\r"]);
    assert_eq!(lines_of("\n"), vec![""]);
    assert!(lines_of("").is_empty());
}

#[test]
fn pascal_case_splits_at_underscores() {
    assert_eq!(
        to_pascal_case("token_vault_v2"),
        to_pascal_case("token") + &to_pascal_case("vault_v2")
    );
    assert_eq!(to_pascal_case("a__b"), to_pascal_case("a") + &to_pascal_case("_b"));
    assert_eq!(to_pascal_case("_x"), "X");
}

#[test]
fn instruction_fields_need_a_closed_body() {
    assert!(extract_instruction_data_fields("#[repr(C)]\npub struct Open {\n    pub a: u8,\n").is_empty());
    assert!(extract_instruction_data_fields("#[repr(C)] no brace here").is_empty());
    assert_eq!(
        extract_instruction_data_fields("pub struct Early { pub z: u8 }\n#[repr(C, packed)]\npub struct D {\n    pub amount: u64,\n}\n"),
        vec![("amount".to_string(), "U64".to_string())]
    );
}

#[test]
fn no_error_variants_renders_as_none_found() {
    let ix = PinocchioInstruction {
        name: "init".to_string(),
        discriminator: 0,
        accounts: vec![],
        args: vec![],
    };
    let empty: Vec<String> = Vec::new();
    let ixs = vec![ix];
    assert_eq!(render_spec("tiny", &ixs, Some(&empty)), render_spec("tiny", &ixs, None));
}

#[test]
fn pascal_case_drops_underscores_only() {
    assert_eq!(to_pascal_case("my_program"), "MyProgram");
    assert_eq!(to_pascal_case("a__b_"), "AB");
    assert_eq!(to_pascal_case("token_2022"), "Token2022");
    for s in ["my_program", "a__b_", "token_2022", "_é_x"] {
        let r = to_pascal_case(s);
        assert!(!r.contains('_'));
        assert_eq!(
            r.chars().count(),
            s.chars().count() - s.chars().filter(|c| *c == '_').count()
        );
    }
}
