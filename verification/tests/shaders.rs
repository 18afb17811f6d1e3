use vlfo::glsl::{generate_glsl, sanitize_body};
use vlfo::isf::{parse, split_header, strip_trailing_commas, InputKind, IsfError, Rgba, Xy};
use vlfo::layout::{layout, SlotKind};

const SHADER: &str = r#"/*{
    "DESCRIPTION": "test shader",
    "CREDIT": "me",
    "CATEGORIES": ["Generator", 3, "Test"],
    "INPUTS": [
        {"NAME": "speed", "TYPE": "float", "DEFAULT": 0.25, "MIN": -1, "MAX": 2},
        {"NAME": "tint", "TYPE": "color", "DEFAULT": [1.0, 0.5, 0.0]},
        {"NAME": "pos", "TYPE": "point2D"},
        {"NAME": "on", "TYPE": "bool", "DEFAULT": 1},
        {"NAME": "hit", "TYPE": "event"},
        {"NAME": "n", "TYPE": "long", "DEFAULT": 3.7, "MAX": 9, "LABEL": "Count"},
        {"NAME": "img", "TYPE": "image"},
    ],
}*/
varying vec2 isf_FragNormCoord;
void main() { gl_FragColor = vec4(speed); }
"#;

#[test]
fn split_header_finds_the_comment() {
    let (h, b) = split_header("  /*  {\"A\": 1}  */ body\n").unwrap();
    assert_eq!(h, "{\"A\": 1}");
    assert_eq!(b, " body\n");
}

#[test]
fn split_header_errors() {
    assert!(matches!(split_header("void main() {}"), Err(IsfError::NoHeaderComment)));
    assert!(matches!(split_header("/*{ \"A\": 1 }"), Err(IsfError::UnterminatedHeader)));
}

#[test]
fn trailing_commas_are_stripped() {
    assert_eq!(strip_trailing_commas("{\"a\": [1, 2,  ],\n}"), "{\"a\": [1, 2  ]\n}");
    assert_eq!(strip_trailing_commas("[\"x,\", 1]"), "[\"x,\", 1]");
    assert_eq!(strip_trailing_commas(",}"), "}");
}

#[test]
fn parse_reads_every_input_kind() {
    let isf = parse(SHADER).unwrap();
    assert_eq!(isf.description, "test shader");
    assert_eq!(isf.credit, "me");
    assert_eq!(isf.categories, vec!["Generator".to_string(), "Test".to_string()]);
    assert_eq!(isf.passes, 1);
    assert!(isf.body.starts_with("\nvarying vec2"));
    let kinds: Vec<InputKind> = isf.inputs.iter().map(|i| i.kind).collect();
    assert_eq!(
        kinds,
        vec![
            InputKind::Float { default: 0.25f32.to_bits(), min: (-1.0f32).to_bits(), max: 2.0f32.to_bits() },
            InputKind::Color {
                default: Rgba { r: 1.0f32.to_bits(), g: 0.5f32.to_bits(), b: 0.0f32.to_bits(), a: 1.0f32.to_bits() }
            },
            InputKind::Point2D { default: Xy { x: 0.5f32.to_bits(), y: 0.5f32.to_bits() } },
            InputKind::Bool { default: true },
            InputKind::Event,
            InputKind::Long { default: 3, min: 0, max: 9 },
            InputKind::Image,
        ]
    );
    assert_eq!(isf.inputs[5].label.as_deref(), Some("Count"));
    assert_eq!(isf.inputs[0].label, None);
    let images: Vec<&str> = isf.image_inputs().iter().map(|i| i.name.as_str()).collect();
    assert_eq!(images, vec!["img"]);
}

#[test]
fn parse_defaults_when_members_are_missing() {
    let isf = parse("/*{\"INPUTS\": [{\"NAME\": \"x\"}], \"PASSES\": [{}, {}, {}]}*/").unwrap();
    assert_eq!(isf.description, "");
    assert!(isf.categories.is_empty());
    assert_eq!(isf.passes, 3);
    assert_eq!(isf.inputs[0].kind, InputKind::Float { default: 0, min: 0, max: 1.0f32.to_bits() });
    let one = parse("/*{\"PASSES\": []}*/").unwrap();
    assert_eq!(one.passes, 1);
}

#[test]
fn parse_input_errors() {
    assert!(matches!(parse("/*{\"INPUTS\": [{\"TYPE\": \"float\"}]}*/"), Err(IsfError::InputWithoutName)));
    match parse("/*{\"INPUTS\": [{\"NAME\": \"v\", \"TYPE\": \"vec3\"}]}*/") {
        Err(IsfError::UnsupportedType(n, t)) => assert_eq!((n.as_str(), t.as_str()), ("v", "vec3")),
        other => panic!("unexpected {other:?}"),
    }
}

#[test]
fn layout_places_builtins_then_inputs_by_alignment() {
    let isf = parse(SHADER).unwrap();
    let l = layout(&isf);
    let placed: Vec<(&str, &str, SlotKind, usize)> =
        l.slots.iter().map(|s| (s.name.as_str(), s.member.as_str(), s.kind, s.offset)).collect();
    assert_eq!(
        placed,
        vec![
            ("RENDERSIZE", "RENDERSIZE", SlotKind::Vec2, 0),
            ("TIME", "TIME", SlotKind::F32, 8),
            ("TIMEDELTA", "TIMEDELTA", SlotKind::F32, 12),
            ("FRAMEINDEX", "FRAMEINDEX", SlotKind::I32, 16),
            ("PASSINDEX", "PASSINDEX", SlotKind::I32, 20),
            ("DATE", "DATE", SlotKind::Vec4, 32),
            ("tint", "tint", SlotKind::Vec4, 48),
            ("pos", "pos", SlotKind::Vec2, 64),
            ("speed", "speed", SlotKind::F32, 72),
            ("on", "on_vlfo_i", SlotKind::I32, 76),
            ("hit", "hit_vlfo_i", SlotKind::I32, 80),
            ("n", "n", SlotKind::I32, 84),
        ]
    );
    assert_eq!(l.size, 96);
}

#[test]
fn slot_kind_sizes() {
    assert_eq!((SlotKind::F32.size(), SlotKind::I32.size(), SlotKind::Vec2.size(), SlotKind::Vec4.size()), (4, 4, 8, 16));
    assert_eq!(SlotKind::Vec2.align(), 8);
    assert_eq!(SlotKind::Vec4.glsl(), "vec4");
    assert_eq!(SlotKind::I32.glsl(), "int");
}

#[test]
fn empty_shader_block_is_sixteen_aligned() {
    let isf = parse("/*{}*/").unwrap();
    assert_eq!(layout(&isf).size, 48);
}

#[test]
fn glsl_prelude_declares_everything() {
    let isf = parse(SHADER).unwrap();
    let l = layout(&isf);
    let g = generate_glsl(&isf, &l);
    assert!(g.starts_with(
        "#version 450\nlayout(location = 0) out vec4 vlfo_fragColor;\n#define gl_FragColor vlfo_fragColor\nlayout(set = 0, binding = 0) uniform VlfoIsf {\n    vec2 RENDERSIZE;\n    float TIME;\n"
    ));
    assert!(g.contains("    vec4 tint;\n    vec2 pos;\n    float speed;\n    int on_vlfo_i;\n    int hit_vlfo_i;\n    int n;\n};\n"));
    assert!(g.contains("#define on (on_vlfo_i != 0)\n#define hit (hit_vlfo_i != 0)\n"));
    assert!(g.contains(
        "layout(set = 0, binding = 1) uniform texture2D img_vlfo_tex;\nlayout(set = 0, binding = 2) uniform sampler img_vlfo_smp;\n#define img sampler2D(img_vlfo_tex, img_vlfo_smp)\n"
    ));
    assert!(g.contains("#define IMG_SIZE(img) vec2(textureSize(img, 0))\n#line 1\n"));
    assert!(g.ends_with("\n// vlfo: dropped: varying vec2 isf_FragNormCoord;\nvoid main() { gl_FragColor = vec4(speed); }"));
}

#[test]
fn sanitize_drops_legacy_declarations() {
    assert_eq!(
        sanitize_body("precision mediump float;\n  #version 120\nvoid main() {}\r\nvarying_x = 1;\n"),
        "// vlfo: dropped: precision mediump float;\n// vlfo: dropped:   #version 120\nvoid main() {}\nvarying_x = 1;"
    );
}

#[test]
fn header_that_is_not_json() {
    let expected = serde_json::from_str::<serde_json::Value>("{ nope }").unwrap_err().to_string();
    match parse("/*{ nope }*/ void main() {}") {
        Err(IsfError::BadJson(m)) => assert_eq!(m, expected),
        other => panic!("unexpected {other:?}"),
    }
}

#[test]
fn json_values_are_converted() {
    // numbers as serde_json reads them, narrowed as `as f32` / `as i32` would
    let src = "/*{\"DESCRIPTION\": \"d\", \"CATEGORIES\": [null, true, \"x\", {}], \"INPUTS\": [\n\
        {\"NAME\": \"a\", \"DEFAULT\": 0.1, \"MIN\": -1e40, \"MAX\": 1e-50},\n\
        {\"NAME\": \"b\", \"TYPE\": \"long\", \"DEFAULT\": -2.9, \"MIN\": -1e12, \"MAX\": 123456789012}\n\
        ]}*/";
    let isf = parse(src).unwrap();
    assert_eq!(isf.categories, vec!["x".to_string()]);
    assert_eq!(
        isf.inputs[0].kind,
        InputKind::Float { default: 0.1f32.to_bits(), min: f32::NEG_INFINITY.to_bits(), max: 0 }
    );
    assert_eq!(isf.inputs[1].kind, InputKind::Long { default: -2, min: i32::MIN, max: i32::MAX });
    assert!(matches!(parse("/*[1,,]*/"), Err(IsfError::BadJson(_))));
    assert!(parse("/*[1,2,]*/").is_ok());
}

#[test]
fn header_comment_closes_after_its_opening() {
    // `/*/` does not close the comment it opens
    assert!(matches!(split_header("/*/ x */ y"), Ok((ref h, ref b)) if h == "/ x" && b == " y"));
    assert!(matches!(split_header("/*/"), Err(IsfError::UnterminatedHeader)));
    assert!(matches!(split_header("/**/"), Ok((ref h, ref b)) if h.is_empty() && b.is_empty()));
    assert!(matches!(parse("/*/*/"), Err(IsfError::BadJson(_))));
}

#[test]
fn isf_error_messages() {
    assert_eq!(split_header("void main(){}").unwrap_err().message(), "no ISF header comment (/*{ ... }*/) found");
    assert_eq!(split_header("/*{ }").unwrap_err().message(), "unterminated ISF header comment");
    assert_eq!(
        parse(r#"/*{"INPUTS":[{"NAME":"x"},{"TYPE":"float"}]}*/"#).unwrap_err().message(),
        "input without NAME"
    );
    assert_eq!(
        parse(r#"/*{"INPUTS":[{"NAME":"v","TYPE":"vec3"}]}*/"#).unwrap_err().message(),
        "input v: unsupported TYPE \"vec3\""
    );
    assert_eq!(
        parse(r#"/*{"INPUTS":[{"NAME":"v","TYPE":"a\"b\n"}]}*/"#).unwrap_err().message(),
        format!("input v: unsupported TYPE {:?}", "a\"b\n")
    );
    assert_eq!(parse("/* not json */").unwrap_err().message(), "ISF header is not valid JSON");
}
