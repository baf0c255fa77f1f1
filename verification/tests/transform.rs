use proto_transform::decl::SourceItem;
use proto_transform::descriptor;
use proto_transform::emit;
use proto_transform::parse;
use proto_transform::pipeline::{self, Config, ParsePolicy, PipelineError, SourceUnit};
use proto_transform::preprocess::{self, TextRule};
use proto_transform::rules::{self, ClashFix};
use proto_transform::schema::{self, FieldSchema, MessageSchema, EnumSchema, EnumValueSchema, SchemaFile, SchemaSet};
use proto_transform::text;

fn bv(s: &str) -> Vec<u8> {
    s.as_bytes().to_vec()
}

fn empty_schema() -> SchemaSet {
    SchemaSet { files: vec![] }
}

fn coin_schema() -> SchemaSet {
    SchemaSet {
        files: vec![SchemaFile {
            name: bv("cosmos/base/v1beta1/coin.proto"),
            package: bv("cosmos.base.v1beta1"),
            messages: vec![MessageSchema {
                name: bv("Coin"),
                fields: vec![
                    FieldSchema {
                        name: bv("denom"),
                        number: 1,
                        kind: 9,
                        label: 1,
                        json_name: bv("denom"),
                        oneof_index: None,
                    },
                    FieldSchema {
                        name: bv("amount"),
                        number: 2,
                        kind: 3,
                        label: 1,
                        json_name: bv("amount"),
                        oneof_index: None,
                    },
                ],
            }],
            enums: vec![],
        }],
    }
}

fn default_config() -> Config {
    Config {
        rules: preprocess::default_rules(),
        clash_fixes: vec![],
        policy: ParsePolicy::AbortBatch,
    }
}

#[test]
fn replace_all_scans_left_to_right() {
    let out = text::replace_all(&bv("ababa"), &bv("ab"), &bv("x"));
    assert_eq!(out, bv("xxa"));
}

#[test]
fn replace_all_without_occurrence_is_identity() {
    let out = text::replace_all(&bv("hello"), &bv("zz"), &bv("x"));
    assert_eq!(out, bv("hello"));
}

#[test]
fn preprocess_strips_carriage_returns_and_tabs() {
    let rules_list = preprocess::default_rules();
    assert!(preprocess::validate_rules(&rules_list));
    let out = preprocess::apply_rules(&rules_list, &bv("a\r\n\tb"));
    assert_eq!(out, bv("a\n b"));
}

#[test]
fn preprocess_twice_equals_once() {
    let rules_list = preprocess::default_rules();
    let input = bv("pub struct X {\r\n\tpub a: u8,\r\n}\r\n");
    let once = preprocess::apply_rules(&rules_list, &input);
    let twice = preprocess::apply_rules(&rules_list, &once);
    assert_eq!(once, twice);
}

#[test]
fn empty_rule_pattern_is_a_configuration_error() {
    let bad = vec![TextRule { pattern: vec![], replacement: bv("x") }];
    assert!(!preprocess::validate_rules(&bad));
    let config = Config { rules: bad, clash_fixes: vec![], policy: ParsePolicy::AbortBatch };
    let r = pipeline::run_batch(vec![], &empty_schema(), &config);
    assert!(matches!(r, Err(PipelineError::RuleConfiguration)));
}

#[test]
fn parse_then_emit_reproduces_canonical_text() {
    let input = bv(
        "#[derive(Clone, PartialEq)]\n\
         /// A doc line.\n\
         pub struct Coin {\n    \
             pub denom: ::prost::alloc::string::String,\n    \
             pub amount: i64,\n\
         }\n\
         pub enum Kind {\n    \
             Unspecified = 0,\n    \
             Other,\n\
         }\n\
         pub mod nested {\n\
         }\n",
    );
    let items = parse::parse_source(&input).expect("canonical text parses");
    let out = emit::emit_source(&items);
    assert_eq!(out, input);
}

#[test]
fn parse_rejects_unterminated_struct() {
    let input = bv("pub struct Coin {\n    pub denom: u8,\n");
    assert!(parse::parse_source(&input).is_none());
}

#[test]
fn end_to_end_coin_transform() {
    let input = bv(
        "#[derive(Clone, PartialEq)]\n\
         pub struct Coin {\n    \
             pub denom: ::prost::alloc::string::String,\n    \
             pub amount: i64,\n\
         }\n",
    );
    let schema_set = coin_schema();
    let config = default_config();
    let out = pipeline::transform_file(&input, &bv("cosmos.base.v1beta1"), &schema_set, &config)
        .expect("transform succeeds");
    let expected = bv(
        "use osmosis_std_derive::CosmwasmExt;\n\
         #[derive(Clone, PartialEq, Eq)]\n\
         pub struct Coin {\n    \
             pub denom: ::prost::alloc::string::String,\n    \
             #[serde(serialize_with = \"crate::serde::as_str::serialize\", deserialize_with = \"crate::serde::as_str::deserialize\")]\n    \
             pub amount: i64,\n\
         }\n",
    );
    assert_eq!(String::from_utf8(out).unwrap(), String::from_utf8(expected).unwrap());
}

#[test]
fn transform_without_schema_entry_degrades_gracefully() {
    let input = bv(
        "#[derive(Clone, PartialEq)]\n\
         pub struct Stranger {\n    \
             pub amount: i64,\n\
         }\n",
    );
    let config = default_config();
    let out = pipeline::transform_file(&input, &bv("cosmos.base.v1beta1"), &empty_schema(), &config)
        .expect("transform succeeds without schema metadata");
    let expected = bv(
        "use osmosis_std_derive::CosmwasmExt;\n\
         #[derive(Clone, PartialEq, Eq)]\n\
         pub struct Stranger {\n    \
             pub amount: i64,\n\
         }\n",
    );
    assert_eq!(String::from_utf8(out).unwrap(), String::from_utf8(expected).unwrap());
}

#[test]
fn enum_variant_gets_uppercased_alias() {
    let input = bv(
        "pub enum AuthorizationType {\n    \
             Unspecified = 0,\n\
         }\n",
    );
    let schema_set = SchemaSet {
        files: vec![SchemaFile {
            name: bv("cosmos/staking/v1beta1/authz.proto"),
            package: bv("cosmos.staking.v1beta1"),
            messages: vec![],
            enums: vec![EnumSchema {
                name: bv("AuthorizationType"),
                values: vec![EnumValueSchema { name: bv("UNSPECIFIED"), number: 0 }],
            }],
        }],
    };
    let config = default_config();
    let out = pipeline::transform_file(&input, &bv("cosmos.staking.v1beta1"), &schema_set, &config)
        .expect("transform succeeds");
    let expected = bv(
        "use osmosis_std_derive::CosmwasmExt;\n\
         #[derive(Eq)]\n\
         pub enum AuthorizationType {\n    \
             #[serde(alias = \"UNSPECIFIED\")]\n    \
             Unspecified = 0,\n\
         }\n",
    );
    assert_eq!(String::from_utf8(out).unwrap(), String::from_utf8(expected).unwrap());
}

#[test]
fn exclusion_filter_drops_build_artifacts() {
    let files = vec![
        SourceUnit { name: bv("descriptor_a.bin"), contents: bv("junk") },
        SourceUnit { name: bv("buf.lock"), contents: bv("junk") },
        SourceUnit { name: bv("cosmos.bank.v1beta1.rs"), contents: bv("pub use foo;\n") },
    ];
    let config = default_config();
    let out = pipeline::run_batch(files, &empty_schema(), &config).expect("batch succeeds");
    assert_eq!(out.outputs.len(), 1);
    assert_eq!(out.outputs[0].name, bv("cosmos.bank.v1beta1.rs"));
    assert!(out.failures.is_empty());
}

#[test]
fn clash_fixes_rename_per_module_with_references() {
    let input1 = bv(
        "pub struct Validators {\n    \
             pub list: ::prost::alloc::vec::Vec<Validators>,\n\
         }\n",
    );
    let input2 = bv(
        "pub struct Validators {\n    \
             pub one: Validators,\n\
         }\n",
    );
    let fixes = vec![
        ClashFix {
            module: bv("cosmos.staking.v1beta1"),
            old_name: bv("Validators"),
            new_name: bv("StakeAuthorizationValidators"),
        },
        ClashFix {
            module: bv("cosmos.gov.v1beta1"),
            old_name: bv("Validators"),
            new_name: bv("GovValidators"),
        },
    ];
    let config = Config {
        rules: preprocess::default_rules(),
        clash_fixes: fixes,
        policy: ParsePolicy::AbortBatch,
    };
    let out1 = pipeline::transform_file(&input1, &bv("cosmos.staking.v1beta1"), &empty_schema(), &config)
        .expect("transform succeeds");
    let out2 = pipeline::transform_file(&input2, &bv("cosmos.gov.v1beta1"), &empty_schema(), &config)
        .expect("transform succeeds");
    let text1 = String::from_utf8(out1).unwrap();
    let text2 = String::from_utf8(out2).unwrap();
    assert!(text1.contains("pub struct StakeAuthorizationValidators {"));
    assert!(text1.contains("pub list: ::prost::alloc::vec::Vec<StakeAuthorizationValidators>,"));
    assert!(text2.contains("pub struct GovValidators {"));
    assert!(text2.contains("pub one: GovValidators,"));
    assert!(!text1.contains("GovValidators"));
    assert!(!text2.contains("StakeAuthorizationValidators"));
}

#[test]
fn replace_ident_respects_word_boundaries() {
    let out = rules::replace_ident(
        &bv("Validators, MyValidators, Validators2"),
        &bv("Validators"),
        &bv("New"),
    );
    assert_eq!(out, bv("New, MyValidators, Validators2"));
}

#[test]
fn parse_failure_policy_abort() {
    let files = vec![SourceUnit {
        name: bv("bad.rs"),
        contents: bv("pub struct Broken {\n"),
    }];
    let config = default_config();
    let r = pipeline::run_batch(files, &empty_schema(), &config);
    assert!(matches!(r, Err(PipelineError::ParseFailure)));
}

#[test]
fn parse_failure_policy_skip_records_file() {
    let files = vec![
        SourceUnit { name: bv("bad.rs"), contents: bv("pub struct Broken {\n") },
        SourceUnit { name: bv("good.rs"), contents: bv("pub use foo;\n") },
    ];
    let config = Config {
        rules: preprocess::default_rules(),
        clash_fixes: vec![],
        policy: ParsePolicy::SkipFile,
    };
    let out = pipeline::run_batch(files, &empty_schema(), &config).expect("batch continues");
    assert_eq!(out.failures, vec![bv("bad.rs")]);
    assert_eq!(out.outputs.len(), 1);
    assert_eq!(out.outputs[0].name, bv("good.rs"));
}

#[test]
fn module_of_strips_rs_suffix() {
    assert_eq!(pipeline::module_of(&bv("cosmos.bank.v1beta1.rs")), bv("cosmos.bank.v1beta1"));
    assert_eq!(pipeline::module_of(&bv("plain")), bv("plain"));
}

#[test]
fn name_normalization_merges_case_styles() {
    assert_eq!(schema::normalize_name(&bv("foo_Bar")), bv("foobar"));
    assert_eq!(schema::normalize_name(&bv("fooBar")), bv("foobar"));
}

#[test]
fn field_lookup_matches_camel_and_underscore() {
    let set = SchemaSet {
        files: vec![SchemaFile {
            name: bv("x.proto"),
            package: bv("pkg"),
            messages: vec![MessageSchema {
                name: bv("M"),
                fields: vec![FieldSchema {
                    name: bv("foo_bar"),
                    number: 1,
                    kind: 4,
                    label: 1,
                    json_name: bv("fooBar"),
                    oneof_index: None,
                }],
            }],
            enums: vec![],
        }],
    };
    assert_eq!(schema::field_kind(&set, &bv("pkg"), &bv("M"), &bv("fooBar")), Some(4));
    assert_eq!(schema::field_kind(&set, &bv("pkg"), &bv("M"), &bv("foo_bar")), Some(4));
    assert_eq!(schema::field_kind(&set, &bv("pkg"), &bv("M"), &bv("other")), None);
}

#[test]
fn every_output_begins_with_the_import_line() {
    let files = vec![
        SourceUnit { name: bv("a.rs"), contents: bv("// header\n") },
        SourceUnit { name: bv("b.rs"), contents: bv("pub struct B {\n}\n") },
    ];
    let config = default_config();
    let out = pipeline::run_batch(files, &empty_schema(), &config).expect("batch succeeds");
    assert_eq!(out.outputs.len(), 2);
    for unit in &out.outputs {
        let text_out = String::from_utf8(unit.contents.clone()).unwrap();
        assert!(text_out.starts_with("use osmosis_std_derive::CosmwasmExt;\n"));
    }
}

#[test]
fn injected_attribute_follows_existing_field_attributes() {
    let input = bv(
        "pub struct Coin {\n    \
             /// The amount.\n    \
             pub amount: i64,\n\
         }\n",
    );
    let schema_set = coin_schema();
    let config = default_config();
    let out = pipeline::transform_file(&input, &bv("cosmos.base.v1beta1"), &schema_set, &config)
        .expect("transform succeeds");
    let expected = bv(
        "use osmosis_std_derive::CosmwasmExt;\n\
         #[derive(Eq)]\n\
         pub struct Coin {\n    \
             /// The amount.\n    \
             #[serde(serialize_with = \"crate::serde::as_str::serialize\", deserialize_with = \"crate::serde::as_str::deserialize\")]\n    \
             pub amount: i64,\n\
         }\n",
    );
    assert_eq!(String::from_utf8(out).unwrap(), String::from_utf8(expected).unwrap());
}

#[test]
fn empty_batch_produces_no_output() {
    let config = default_config();
    let out = pipeline::run_batch(vec![], &empty_schema(), &config).expect("empty batch succeeds");
    assert!(out.outputs.is_empty());
    assert!(out.failures.is_empty());
}

#[test]
fn empty_source_file_gets_only_the_import() {
    let config = default_config();
    let out = pipeline::transform_file(&vec![], &bv("pkg"), &empty_schema(), &config)
        .expect("empty file transforms");
    assert_eq!(out, bv("use osmosis_std_derive::CosmwasmExt;\n"));
}

fn enc_varint(mut v: u64, out: &mut Vec<u8>) {
    loop {
        let b = (v & 0x7f) as u8;
        v >>= 7;
        if v == 0 {
            out.push(b);
            return;
        }
        out.push(b | 0x80);
    }
}

fn enc_len_field(field_no: u64, payload: &[u8], out: &mut Vec<u8>) {
    enc_varint(field_no << 3 | 2, out);
    enc_varint(payload.len() as u64, out);
    out.extend_from_slice(payload);
}

fn enc_varint_field(field_no: u64, v: u64, out: &mut Vec<u8>) {
    enc_varint(field_no << 3, out);
    enc_varint(v, out);
}

#[test]
fn descriptor_set_decodes() {
    let mut field = Vec::new();
    enc_len_field(1, b"amount", &mut field);
    enc_varint_field(3, 2, &mut field);
    enc_varint_field(5, 3, &mut field);
    enc_len_field(10, b"amount", &mut field);
    let mut msg = Vec::new();
    enc_len_field(1, b"Coin", &mut msg);
    enc_len_field(2, &field, &mut msg);
    let mut ev = Vec::new();
    enc_len_field(1, b"UNSPECIFIED", &mut ev);
    enc_varint_field(2, 0, &mut ev);
    let mut en = Vec::new();
    enc_len_field(1, b"Kind", &mut en);
    enc_len_field(2, &ev, &mut en);
    let mut file = Vec::new();
    enc_len_field(1, b"coin.proto", &mut file);
    enc_len_field(2, b"cosmos.base.v1beta1", &mut file);
    enc_len_field(4, &msg, &mut file);
    enc_len_field(5, &en, &mut file);
    let mut set = Vec::new();
    enc_len_field(1, &file, &mut set);

    let decoded = descriptor::decode_descriptor_set(&set).expect("well-formed payload");
    assert_eq!(decoded.files.len(), 1);
    assert_eq!(decoded.files[0].package, bv("cosmos.base.v1beta1"));
    assert_eq!(decoded.files[0].messages[0].name, bv("Coin"));
    assert_eq!(decoded.files[0].messages[0].fields[0].name, bv("amount"));
    assert_eq!(decoded.files[0].messages[0].fields[0].number, 2);
    assert_eq!(decoded.files[0].messages[0].fields[0].kind, 3);
    assert_eq!(decoded.files[0].enums[0].name, bv("Kind"));
    assert_eq!(decoded.files[0].enums[0].values[0].name, bv("UNSPECIFIED"));
    assert_eq!(schema::field_kind(&decoded, &bv("cosmos.base.v1beta1"), &bv("Coin"), &bv("amount")), Some(3));
}

#[test]
fn truncated_descriptor_is_a_decode_failure() {
    let bad = vec![0x0a, 0x05, 0x01];
    let r = descriptor::decode_descriptor_set(&bad);
    assert!(matches!(r, Err(PipelineError::Decode)));
}

#[test]
fn merged_sets_keep_fragment_order() {
    let a = SchemaSet {
        files: vec![SchemaFile { name: bv("a"), package: bv("pa"), messages: vec![], enums: vec![] }],
    };
    let b = SchemaSet {
        files: vec![SchemaFile { name: bv("b"), package: bv("pb"), messages: vec![], enums: vec![] }],
    };
    let merged = descriptor::merge_sets(a, b);
    assert_eq!(merged.files.len(), 2);
    assert_eq!(merged.files[0].package, bv("pa"));
    assert_eq!(merged.files[1].package, bv("pb"));
}

#[test]
fn passthrough_lines_survive_verbatim() {
    let input = bv("// generated header\n\npub use other::Thing;\n");
    let items = parse::parse_source(&input).expect("passthrough text parses");
    assert_eq!(items.len(), 3);
    assert!(matches!(items[0], SourceItem::Passthrough(_)));
    let out = emit::emit_source(&items);
    assert_eq!(out, input);
}
