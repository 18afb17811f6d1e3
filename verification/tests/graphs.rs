use vlfo::codegen::{compile, InputValues};
use vlfo::graph::{parse_graph, Graph, GraphError, Num, Problem};
use vlfo::nodes::node_help;

fn num_value(n: &Num) -> f32 {
    let p = |s: &String| s.parse::<f32>().unwrap();
    match n {
        Num::Lit(a) => p(a),
        Num::Min(a, b) => p(a).min(p(b)),
        Num::Max(a, b) => p(a).max(p(b)),
    }
}

fn values(g: &Graph) -> Vec<InputValues> {
    g.inputs
        .iter()
        .map(|i| InputValues {
            default: num_value(&i.default).to_string(),
            min: num_value(&i.min).to_string(),
            max: num_value(&i.max).to_string(),
        })
        .collect()
}

fn compile_src(src: &str, title: &str) -> String {
    let g = parse_graph(src).expect("graph parses");
    let v = values(&g);
    compile(&g, title, &v)
}

fn problem_at(src: &str) -> (usize, String, Problem) {
    match parse_graph(src) {
        Err(GraphError::At { line, raw, problem }) => (line, raw, problem),
        other => panic!("expected an error on a line, got {other:?}"),
    }
}

#[test]
fn node_help_lists_every_node() {
    let table: [(&str, &str, &str); 19] = [
        ("rect", "shape", "w=1 h=1"),
        ("square", "shape", "s=1"),
        ("circle", "shape", "r=1"),
        ("ring", "shape", "r=1 t=0.1"),
        ("line", "shape", "x=1 y=0 t=0.05"),
        ("fill", "shape", ""),
        ("translate", "transform", "x=0 y=0"),
        ("rotate", "transform", "deg=0"),
        ("scale", "transform", "s=1"),
        ("grid", "transform", "cols=1 rows=1 sx=1 sy=1"),
        ("repeat", "transform", "sx=1 sy=1"),
        ("mirror", "transform", ""),
        ("color", "paint", "r=1 g=1 b=1"),
        ("gray", "paint", "v=1"),
        ("hsv", "paint", "h=0 s=1 v=1"),
        ("alpha", "paint", "a=1"),
        ("soften", "paint", "s=0.1"),
        ("outline", "paint", "t=0.05"),
        ("invert", "paint", ""),
    ];
    let mut expected = String::new();
    for (n, k, p) in table {
        expected.push_str(&format!("{:<10} {:<10} {}\n", n, k, p));
    }
    assert_eq!(node_help(), expected);
}

#[test]
fn compile_single_fill_chain_exactly() {
    let out = compile_src("x = fill", "t.vlfo");
    let expected: String = [
        "/*{\n",
        "  \"DESCRIPTION\": \"generated by vlfo from t.vlfo\",\n",
        "  \"CATEGORIES\": [\"Generator\", \"vlfo-graph\"],\n",
        "  \"INPUTS\": [\n",
        "\n",
        "  ]\n",
        "}*/\n\n",
        "vec3 vlfo_hsv2rgb(vec3 c) {\n",
        "    vec4 K = vec4(1.0, 2.0 / 3.0, 1.0 / 3.0, 3.0);\n",
        "    vec3 p = abs(fract(c.xxx + K.xyz) * 6.0 - K.www);\n",
        "    return c.z * mix(K.xxx, clamp(p - K.xxx, 0.0, 1.0), c.y);\n}\n\n",
        "vec4 chain_x(vec2 p) {\n",
        "    vec2 q = p; float sc = 1.0; float d = -1.0; vec3 col = vec3(1.0);\n",
        "    float al = 1.0; float soft = 0.0; bool inv = false;\n",
        "    // fill\n",
        "    d = -1.0;\n",
        "    d *= sc;\n",
        "    float aa = fwidth(d) + soft;\n",
        "    float cov = 1.0 - smoothstep(0.0, aa, d);\n",
        "    if (inv) cov = 1.0 - cov;\n",
        "    return vec4(col, al * cov);\n}\n\n",
        "void main() {\n",
        "    float aspect = RENDERSIZE.x / RENDERSIZE.y;\n",
        "    vec2 p = (isf_FragNormCoord - 0.5) * vec2(8.0 * aspect, 8.0);\n",
        "    vec3 acc = vec3(0.0);\n",
        "    { vec4 c = chain_x(p); acc = mix(acc, c.rgb, clamp(c.a, 0.0, 1.0)); }\n",
        "    gl_FragColor = vec4(acc, 1.0);\n}\n",
    
    ]
    .concat();
    assert_eq!(out, expected);
}

#[test]
fn compile_documented_example() {
    let src = "in spread 60 0 400                 # a declared input\n\
               a = translate -3 0 | grid 5 6 spread*0.01 1 | rect 0.3 0.1 | gray 0.5\n\
               b = circle 1 | color 1 0.2 0.1\n";
    let g = parse_graph(src).expect("graph parses");
    let names: Vec<&str> = g.inputs.iter().map(|i| i.name.as_str()).collect();
    assert_eq!(
        names,
        vec![
            "spread", "a_translate_x", "a_translate_y", "a_grid_cols", "a_grid_rows", "a_grid_sy",
            "a_rect_w", "a_rect_h", "a_gray_v", "b_circle_r", "b_color_r", "b_color_g", "b_color_b",
        ]
    );
    let out = compile_src(src, "demo.vlfo");
    assert!(out.contains("\"DESCRIPTION\": \"generated by vlfo from demo.vlfo\""));
    assert!(out.contains(
        "    {\"NAME\": \"spread\", \"TYPE\": \"float\", \"DEFAULT\": 60, \"MIN\": 0, \"MAX\": 400},\n"
    ));
    assert!(out.contains(
        "    {\"NAME\": \"a_translate_x\", \"TYPE\": \"float\", \"DEFAULT\": -3, \"MIN\": -8, \"MAX\": 8},\n"
    ));
    assert!(out.contains(
        "    {\"NAME\": \"a_rect_w\", \"TYPE\": \"float\", \"DEFAULT\": 0.3, \"MIN\": 0, \"MAX\": 8},\n"
    ));
    assert!(out.contains(
        "    {\"NAME\": \"b_color_b\", \"TYPE\": \"float\", \"DEFAULT\": 0.1, \"MIN\": 0, \"MAX\": 1}\n  ]\n}*/"
    ));
    assert!(out.contains(
        "    // grid\n    { vec2 sp = vec2((spread*0.01), a_grid_sy); vec2 c = clamp(floor(q / sp + 0.5), vec2(0.0), vec2(a_grid_cols, a_grid_rows) - 1.0); q -= c * sp; }\n"
    ));
    assert!(out.contains("    // translate\n    q -= vec2(a_translate_x, a_translate_y);\n"));
    assert!(out.contains("    // color\n    col = vec3(b_color_r, b_color_g, b_color_b);\n"));
    let a = out.find("{ vec4 c = chain_a(p);").unwrap();
    let b = out.find("{ vec4 c = chain_b(p);").unwrap();
    assert!(a < b, "chains are composited in file order");
}

#[test]
fn repeated_node_types_get_numbered() {
    let g = parse_graph("a = circle 1 | circle 2 | circle r=3").unwrap();
    let names: Vec<&str> = g.inputs.iter().map(|i| i.name.as_str()).collect();
    assert_eq!(names, vec!["a_circle_r", "a_circle2_r", "a_circle3_r"]);
}

#[test]
fn expressions_are_inlined_and_make_no_input() {
    let g = parse_graph("in speed 1\nc = rotate TIME*speed | circle").unwrap();
    let names: Vec<&str> = g.inputs.iter().map(|i| i.name.as_str()).collect();
    assert_eq!(names, vec!["speed", "c_circle_r"]);
    let out = compile_src("in speed 1\nc = rotate TIME*speed | circle", "r");
    assert!(out.contains("{ float r = radians((TIME*speed)); q = mat2(cos(r), -sin(r), sin(r), cos(r)) * q; }"));
    // a declared input with only a default: min is min(default, 0), max is max(default, 1)
    assert!(out.contains("{\"NAME\": \"speed\", \"TYPE\": \"float\", \"DEFAULT\": 1, \"MIN\": 0, \"MAX\": 1}"));
}

#[test]
fn title_quotes_are_removed() {
    let out = compile_src("x = fill", "a\"b\".vlfo");
    assert!(out.contains("\"generated by vlfo from ab.vlfo\""));
}

#[test]
fn comments_and_blank_lines_are_skipped() {
    let g = parse_graph("# header\n\n   \nx = fill # trailing\n").unwrap();
    assert_eq!(g.chains.len(), 1);
    assert_eq!(g.chains[0].name, "x");
}

#[test]
fn error_expected_input() {
    let (line, raw, p) = problem_at("in 1x 2");
    assert_eq!((line, raw.as_str()), (1, "in 1x 2"));
    assert!(matches!(p, Problem::ExpectedInput));
}

#[test]
fn error_bad_number() {
    let (line, _, p) = problem_at("x = fill\nin a 1 zz");
    assert_eq!(line, 2);
    assert!(matches!(p, Problem::BadNumber(ref s) if s == "zz"));
}

#[test]
fn error_expected_chain() {
    let (_, raw, p) = problem_at("  hello  # what");
    assert_eq!(raw, "  hello  # what");
    assert!(matches!(p, Problem::ExpectedChain));
}

#[test]
fn error_bad_chain_name() {
    let (_, _, p) = problem_at("1a = fill");
    assert!(matches!(p, Problem::BadChainName(ref s) if s == "1a"));
}

#[test]
fn error_already_defined() {
    let (line, _, p) = problem_at("a = fill\na = circle");
    assert_eq!(line, 2);
    assert!(matches!(p, Problem::AlreadyDefined(ref s) if s == "a"));
    let (_, _, q) = problem_at("in k 1\nk = fill");
    assert!(matches!(q, Problem::AlreadyDefined(ref s) if s == "k"));
}

#[test]
fn error_empty_node() {
    let (_, _, p) = problem_at("a = fill |  ");
    assert!(matches!(p, Problem::EmptyNode));
}

#[test]
fn error_unknown_node() {
    let (_, _, p) = problem_at("a = blob 1");
    assert!(matches!(p, Problem::UnknownNode(ref s) if s == "blob"));
}

#[test]
fn error_no_parameter() {
    let (_, _, p) = problem_at("a = circle q=1");
    assert!(matches!(p, Problem::NoParameter(ref n, ref k) if n == "circle" && k == "q"));
}

#[test]
fn error_too_many_args() {
    let (_, _, p) = problem_at("a = circle 1 2");
    assert!(matches!(p, Problem::TooManyArgs(ref n, 1) if n == "circle"));
}

#[test]
fn error_no_chains() {
    assert!(matches!(parse_graph("# nothing\nin a 1\n"), Err(GraphError::NoChains)));
}

fn message_of(src: &str) -> String {
    parse_graph(src).unwrap_err().message()
}

#[test]
fn graph_error_messages() {
    assert_eq!(message_of(""), "no chains defined");
    assert_eq!(message_of("in x 1"), "no chains defined");
    let known = "rect square circle ring line fill translate rotate scale grid repeat mirror color gray hsv alpha soften outline invert";
    assert_eq!(message_of("a = blob"), format!("line 1: unknown node \"blob\"; known: {known}\n    a = blob"));
    assert!(message_of("a = circle 1 2").contains("circle takes 1 arguments"));
    assert!(message_of("a = rect z=1").contains("rect has no parameter \"z\""));
    assert!(message_of("a = circle |").contains("empty node"));
    assert!(message_of("a = fill\na = fill").starts_with("line 2: \"a\" already defined\n    a = fill"));
    assert!(message_of("in a 1\na = fill").starts_with("line 2: \"a\" already defined"));
    assert!(message_of("1a = fill").contains("bad chain name \"1a\""));
    assert_eq!(message_of("circle 1"), "line 1: expected `name = node ... | node ...` or `in NAME ...`\n    circle 1");
    assert_eq!(message_of("in 2"), "line 1: expected: in NAME DEFAULT [MIN MAX]\n    in 2");
    assert!(message_of("in a 1 q\"").contains(&format!("bad number {:?}", "q\"")));
}

#[test]
fn comments_and_blank_lines_do_not_change_the_shader() {
    let plain = "in s 2\na = circle s | gray 0.5\nb = fill";
    let noisy = "# top\n\nin s 2   # speed\n   \n  # note\na = circle s | gray 0.5#x\nb = fill # end\n";
    assert_eq!(compile_src(plain, "t"), compile_src(noisy, "t"));
}

#[test]
fn every_listed_node_compiles_with_defaults() {
    for line in node_help().lines() {
        let n = line.split_whitespace().next().unwrap();
        let g = parse_graph(&format!("a = {n}"));
        assert!(g.is_ok(), "{n}");
    }
    assert!(message_of("a = nope").contains("unknown node \"nope\""));
}
