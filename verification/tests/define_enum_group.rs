//! Tests for the grouped-union declaration pipeline: parsing, code
//! generation, conversion semantics, and attribute propagation.

use enum_group_macros::ast::EnumGroupInput;
use enum_group_macros::define_enum_group;
use enum_group_macros::model::WireValue;
use enum_group_macros::token::lex;
use enum_group_macros::token::Tok;
use enum_group_macros::EnumGroup;

/// Run the whole pipeline and return the generated text.
fn gen(src: &str) -> String {
    define_enum_group(src).expect("generation failed").into_iter().collect()
}

/// Lex and parse a declaration.
fn parse(src: &str) -> EnumGroupInput {
    let chars: Vec<char> = src.chars().collect();
    let toks = lex(&chars).expect("lex failed");
    EnumGroupInput::parse(&toks).expect("parse failed")
}

/// Lex a payload expression into an opaque token span.
fn payload(src: &str) -> Vec<Tok> {
    let chars: Vec<char> = src.chars().collect();
    lex(&chars).expect("lex failed")
}

fn name_of(v: &[char]) -> String {
    v.iter().collect()
}

/// Render a token span back to text.
fn render(toks: &[Tok]) -> String {
    let mut out: Vec<char> = Vec::new();
    for t in toks {
        let mut v = Vec::new();
        enum_group_macros::token::render_tok_into(&mut v, t);
        out.extend(v);
    }
    out.into_iter().collect()
}

#[test]
fn test_minimal_definition() {
    let src = "#[derive(Debug, Clone)]
    enum MinimalMsg {
      OnlyGroup {
        OnlyVariant(MsgA),
      }
    }";
    let d = parse(src);
    let msg = WireValue { idx: 0, payload: payload("MsgA { value: 42 }") };
    let original = render(&msg.payload);
    let grouped = d.into_group_value(msg);
    assert!(
        name_of(&d.groups[grouped.group].name) == "OnlyGroup"
            && name_of(&d.groups[grouped.group].variants[grouped.variant].name) == "OnlyVariant"
            && render(&grouped.payload) == original
    );
    let out = gen(src);
    assert!(out.contains("enum MinimalMsg"));
    assert!(out.contains("enum MinimalMsgGroup"));
}

#[test]
fn test_multiple_groups_multiple_variants() {
    let src = "#[derive(Debug, Clone)]
    enum ComplexMsg {
      GroupAlpha {
        VariantA(MsgA),
        VariantB(MsgB),
      },
      GroupBeta {
        VariantC(MsgC),
        VariantD(MsgD),
      }
    }";
    let d = parse(src);
    let g = |idx: usize, pl: &str| {
        let v = d.into_group_value(WireValue { idx, payload: payload(pl) });
        name_of(&d.groups[v.group].name)
    };
    assert_eq!(g(0, "MsgA { value: 1 }"), "GroupAlpha");
    assert_eq!(g(1, "MsgB { text: \"hello\".to_string() }"), "GroupAlpha");
    assert_eq!(g(2, "MsgC { flag: true }"), "GroupBeta");
    assert_eq!(g(3, "MsgD { data: vec![1, 2, 3] }"), "GroupBeta");
}

#[test]
fn test_trailing_commas_everywhere() {
    let src = "#[derive(Debug, Clone)]
    enum TrailingCommaMsg {
      Group1 {
        Var1(MsgA),
        Var2(MsgB), // trailing comma after last variant
      }, // trailing comma after group
      Group2 {
        Var3(MsgC),
      },
    }";
    let d = parse(src);
    let v = d.into_group_value(WireValue { idx: 0, payload: payload("MsgA { value: 1 }") });
    assert_eq!(name_of(&d.groups[v.group].name), "Group1");
}

#[test]
fn test_no_trailing_commas() {
    let src = "#[derive(Debug, Clone)]
    enum NoTrailingMsg {
      Group1 {
        Var1(MsgA)
      }
      Group2 {
        Var2(MsgB)
      }
    }";
    let d = parse(src);
    let v = d.into_group_value(WireValue { idx: 0, payload: payload("MsgA { value: 1 }") });
    assert_eq!(name_of(&d.groups[v.group].name), "Group1");
}

#[test]
fn test_empty_group() {
    let src = "#[derive(Debug, Clone)]
    enum EmptyGroupMsg {
      EmptyGroup {
        // No variants - tests the empty body path
      },
      NonEmptyGroup {
        SomeVariant(MsgA),
      }
    }";
    let d = parse(src);
    assert_eq!(d.groups.len(), 2);
    assert_eq!(d.groups[0].variants.len(), 0);
    let v = d.into_group_value(WireValue { idx: 0, payload: payload("MsgA { value: 1 }") });
    assert_eq!(name_of(&d.groups[v.group].name), "NonEmptyGroup");
}

#[test]
fn test_pub_visibility() {
    let src = "#[derive(Debug, Clone)]
    pub enum PubMsg {
      PubGroup {
        PubVariant(MsgA),
      }
    }";
    let out = gen(src);
    assert!(out.contains("pub enum PubMsg"));
    assert!(out.contains("pub enum PubMsgGroup"));
    assert!(out.contains("pub enum PubGroup"));
    assert!(out.contains("pub fn into_group"));
}

#[test]
fn test_pub_crate_visibility() {
    let src = "#[derive(Debug, Clone)]
    pub(crate) enum PubCrateMsg {
      CrateGroup {
        CrateVariant(MsgA),
      }
    }";
    let out = gen(src);
    assert!(out.contains("pub(crate ) enum PubCrateMsg"));
    assert!(out.contains("pub(crate ) enum PubCrateMsgGroup"));
    assert!(out.contains("pub(crate ) fn into_group"));
}

#[test]
fn test_private_visibility() {
    let src = "#[derive(Debug, Clone)]
    enum PrivateMsg {
      PrivateGroup {
        PrivateVariant(MsgA),
      }
    }";
    let out = gen(src);
    assert!(out.contains("enum PrivateMsg"));
    assert!(!out.contains("pub enum"));
    assert!(!out.contains("pub fn"));
}

#[test]
fn test_generic_types() {
    let src = "#[derive(Debug, Clone)]
    enum GenericTypesMsg {
      Generics {
        OptionalValue(Option<i32>),
        VectorValue(Vec<u8>),
        NestedGeneric(Option<Vec<String>>),
      }
    }";
    let d = parse(src);
    let g = |idx: usize, pl: &str| {
        let v = d.into_group_value(WireValue { idx, payload: payload(pl) });
        name_of(&d.groups[v.group].name)
    };
    assert_eq!(g(0, "Some(42)"), "Generics");
    assert_eq!(g(1, "vec![1, 2, 3]"), "Generics");
    assert_eq!(g(2, "Some(vec![\"a\".to_string()])"), "Generics");
    let out = gen(src);
    assert!(out.contains("OptionalValue(Option <i32 >),"));
}

#[test]
fn test_path_types() {
    let src = "#[derive(Debug, Clone)]
    enum PathTypesMsg {
      Paths {
        StdString(std::string::String),
        BoxedSlice(Box<[u8]>),
      }
    }";
    let d = parse(src);
    let g = |idx: usize, pl: &str| {
        let v = d.into_group_value(WireValue { idx, payload: payload(pl) });
        name_of(&d.groups[v.group].name)
    };
    assert_eq!(g(0, "\"hello\".to_string()"), "Paths");
    assert_eq!(g(1, "vec![1, 2, 3].into_boxed_slice()"), "Paths");
}

#[test]
fn test_derive_attributes() {
    let src = "#[derive(Debug, Clone, PartialEq)]
    enum DeriveMsg {
      Group1 {
        Var1(MsgA),
      }
    }";
    let d = parse(src);
    let debug_str = gen(src);
    assert!(debug_str.contains("Var1"));
    let cloned = d.clone();
    assert_eq!(format!("{:?}", d), format!("{:?}", cloned));
    let v = d.into_group_value(WireValue { idx: 0, payload: payload("MsgA { value: 42 }") });
    assert_eq!(name_of(&d.groups[v.group].variants[v.variant].name), "Var1");
}

#[test]
fn test_serde_tag_content() {
    let src = "#[derive(Debug, Clone, Serialize, Deserialize)]
    #[serde(tag = \"type\", content = \"payload\")]
    enum TaggedMsg {
      Tagged {
        Data(SerdeMsg),
      }
    }";
    let out = gen(src);
    // The tag/content metadata is replicated onto the group enum and the
    // wire enum, and only there.
    assert_eq!(out.matches("#[serde (tag = \"type\" , content = \"payload\" ) ]").count(), 2);
    assert!(out.contains("\"type\""));
    assert!(out.contains("\"payload\""));
    assert!(out.contains("Data"));
}

#[test]
fn test_variant_level_attributes() {
    let src = "#[derive(Debug, Clone, Serialize, Deserialize)]
    #[serde(tag = \"type\", content = \"payload\")]
    enum VariantAttrMsg {
      Attrs {
        #[serde(rename = \"custom_name\")]
        OriginalName(RenamedPayload),
      }
    }";
    let out = gen(src);
    // The variant's own metadata stands on its member in the group enum
    // and in the wire enum, and nowhere else.
    assert_eq!(out.matches("#[serde (rename = \"custom_name\" ) ]\nOriginalName(").count(), 2);
    assert_eq!(out.matches("custom_name").count(), 2);
}

#[test]
fn test_group_enums_exist() {
    let src = "#[derive(Debug, Clone)]
    enum StructureMsg {
      Alpha {
        A1(MsgA),
        A2(MsgB),
      },
      Beta {
        B1(MsgC),
      }
    }";
    let out = gen(src);
    assert!(out.contains("enum Alpha {"));
    assert!(out.contains("enum Beta {"));
}

#[test]
fn test_wire_enum_flattened() {
    let src = "#[derive(Debug, Clone)]
    enum FlattenedMsg {
      Group1 {
        FromG1A(MsgA),
        FromG1B(MsgB),
      },
      Group2 {
        FromG2C(MsgC),
      }
    }";
    let d = parse(src);
    let flat: Vec<String> = d
        .groups
        .iter()
        .flat_map(|g| g.variants.iter().map(|v| name_of(&v.name)))
        .collect();
    assert_eq!(flat, vec!["FromG1A", "FromG1B", "FromG2C"]);
    let out = gen(src);
    assert!(out.contains("enum FlattenedMsg {\nFromG1A(MsgA ),\nFromG1B(MsgB ),\nFromG2C(MsgC ),\n}"));
}

#[test]
fn test_dispatch_enum_naming() {
    let src = "#[derive(Debug, Clone)]
    enum NamingTest {
      SomeGroup {
        Variant(MsgA),
      }
    }";
    let out = gen(src);
    assert!(out.contains("enum NamingTestGroup"));
    let d = parse(src);
    let v = d.into_group_value(WireValue { idx: 0, payload: payload("MsgA { value: 1 }") });
    assert_eq!(name_of(&d.groups[v.group].name), "SomeGroup");
}

#[test]
fn test_into_group_method() {
    let src = "#[derive(Debug, Clone)]
    enum InherentMethodMsg {
      Group1 {
        Var1(MsgA),
      },
      Group2 {
        Var2(MsgB),
      }
    }";
    let d = parse(src);
    let v1 = d.into_group_value(WireValue { idx: 0, payload: payload("MsgA { value: 1 }") });
    let v2 = d.into_group_value(WireValue { idx: 1, payload: payload("MsgB { text: \"hi\".to_string() }") });
    assert!(name_of(&d.groups[v1.group].name) == "Group1" && v1.variant == 0);
    assert!(name_of(&d.groups[v2.group].name) == "Group2" && v2.variant == 0);
}

#[test]
fn test_enum_group_trait_impl() {
    // The generated code implements `EnumGroup` for the wire enum; here a
    // hand-written mirror of that implementation exercises the trait's
    // generic surface.
    struct MsgA {
        value: i32,
    }
    enum TraitImplMsg {
        OnlyVar(MsgA),
    }
    enum OnlyGroup {
        OnlyVar(MsgA),
    }
    enum TraitImplMsgGroup {
        OnlyGroup(OnlyGroup),
    }
    impl EnumGroup for TraitImplMsg {
        type Group = TraitImplMsgGroup;
        fn into_group(self) -> TraitImplMsgGroup {
            match self {
                TraitImplMsg::OnlyVar(v) => TraitImplMsgGroup::OnlyGroup(OnlyGroup::OnlyVar(v)),
            }
        }
    }
    fn use_trait<T: EnumGroup>(val: T) -> T::Group {
        val.into_group()
    }
    let msg = TraitImplMsg::OnlyVar(MsgA { value: 42 });
    let grouped = use_trait(msg);
    assert!(matches!(
        grouped,
        TraitImplMsgGroup::OnlyGroup(OnlyGroup::OnlyVar(MsgA { value: 42 }))
    ));
    let src = "#[derive(Debug, Clone)]
    enum TraitImplMsg {
      OnlyGroup {
        OnlyVar(MsgA),
      }
    }";
    let out = gen(src);
    assert!(out.contains("impl ::enum_group_macros::EnumGroup for TraitImplMsg"));
}
