//! ISF text of a parsed graph: the JSON header listing the inputs, then one
//! GLSL function per chain and a `main` that composites them in order.
use vstd::prelude::*;
use crate::text::{chars_of, joined, push_chars, push_str, string_of};
use crate::nodes::{spec_node_name, spec_params, node_name, NODE_COUNT};
use crate::graph::{Graph, GraphV, ChainV, NodeV, InputV, Node, Chain, strings, nodes_view, chains_view, inputs_view};

verus! {

/// The printed default, minimum and maximum of one input.
pub struct InputValues {
    pub default: String,
    pub min: String,
    pub max: String,
}

pub open spec fn values_view(v: Seq<InputValues>) -> Seq<(Seq<char>, Seq<char>, Seq<char>)> {
    v.map_values(|x: InputValues| (x.default@, x.min@, x.max@))
}

/// Every node names a node type and has one expression per parameter.
pub open spec fn well_formed(g: GraphV) -> bool {
    crate::graph::chains_ok(g.chains)
}

// ---------------------------------------------------------------- node code
/// The code of node type `k` as literal pieces with argument positions
/// between them.
pub open spec fn template(k: int) -> (Seq<Seq<char>>, Seq<int>) {
    if k == 0 {
        (
            seq![
                "{ vec2 e = abs(q) - vec2("@,
                ", "@,
                "); d = length(max(e, 0.0)) + min(max(e.x, e.y), 0.0); }"@,
            ],
            seq![0, 1],
        )
    } else if k == 1 {
        (
            seq![
                "{ vec2 e = abs(q) - vec2("@,
                ", "@,
                "); d = length(max(e, 0.0)) + min(max(e.x, e.y), 0.0); }"@,
            ],
            seq![0, 0],
        )
    } else if k == 2 {
        (seq!["d = length(q) - "@, ";"@], seq![0])
    } else if k == 3 {
        (seq!["d = abs(length(q) - "@, ") - "@, ";"@], seq![0, 1])
    } else if k == 4 {
        (
            seq![
                "{ vec2 b = vec2("@,
                ", "@,
                "); float h = clamp(dot(q, b) / dot(b, b), 0.0, 1.0); d = length(q - b * h) - "@,
                "; }"@,
            ],
            seq![0, 1, 2],
        )
    } else if k == 5 {
        (seq!["d = -1.0;"@], seq![])
    } else if k == 6 {
        (seq!["q -= vec2("@, ", "@, ");"@], seq![0, 1])
    } else if k == 7 {
        (
            seq![
                "{ float r = radians("@,
                "); q = mat2(cos(r), -sin(r), sin(r), cos(r)) * q; }"@,
            ],
            seq![0],
        )
    } else if k == 8 {
        (seq!["{ float s = max("@, ", 1e-5); q /= s; sc *= s; }"@], seq![0])
    } else if k == 9 {
        (
            seq![
                "{ vec2 sp = vec2("@,
                ", "@,
                "); vec2 c = clamp(floor(q / sp + 0.5), vec2(0.0), vec2("@,
                ", "@,
                ") - 1.0); q -= c * sp; }"@,
            ],
            seq![2, 3, 0, 1],
        )
    } else if k == 10 {
        (seq!["{ vec2 sp = vec2("@, ", "@, "); q -= sp * floor(q / sp + 0.5); }"@], seq![0, 1])
    } else if k == 11 {
        (seq!["q = abs(q);"@], seq![])
    } else if k == 12 {
        (seq!["col = vec3("@, ", "@, ", "@, ");"@], seq![0, 1, 2])
    } else if k == 13 {
        (seq!["col = vec3("@, ");"@], seq![0])
    } else if k == 14 {
        (seq!["col = vlfo_hsv2rgb(vec3("@, ", "@, ", "@, "));"@], seq![0, 1, 2])
    } else if k == 15 {
        (seq!["al = "@, ";"@], seq![0])
    } else if k == 16 {
        (seq!["soft = "@, ";"@], seq![0])
    } else if k == 17 {
        (seq!["d = abs(d) - "@, ";"@], seq![0])
    } else {
        (seq!["inv = true;"@], seq![])
    }
}

/// `lits[0] + args[idx[0]] + lits[1] + ... + lits[n]`
pub open spec fn interleave(lits: Seq<Seq<char>>, idx: Seq<int>, args: Seq<Seq<char>>, n: int) -> Seq<
    char,
>
    decreases n,
{
    if n <= 0 {
        lits[0]
    } else {
        interleave(lits, idx, args, n - 1) + args[idx[n - 1]] + lits[n]
    }
}

/// The GLSL statement of a node of type `k` with argument expressions `args`.
pub open spec fn node_code(k: int, args: Seq<Seq<char>>) -> Seq<char> {
    let (lits, idx) = template(k);
    interleave(lits, idx, args, idx.len() as int)
}

/// The expression given for the parameter of node type `k` named `name`.
pub open spec fn arg_of(k: int, args: Seq<Seq<char>>, name: Seq<char>) -> Seq<char> {
    match crate::nodes::param_index(k, name) {
        Some(i) => args[i as int],
        None => Seq::empty(),
    }
}

/// The statement of each node type, with every argument slot filled by the
/// expression of the parameter that the slot reads, found by its name in the
/// node's parameter table: `rect` is a box of half-size (w, h), `line` a
/// segment from the origin to (x, y) of half-thickness t, `grid` spaces its
/// cells by (sx, sy) and clamps them to cols by rows, and so on.
#[verifier::spinoff_prover]
#[verifier::rlimit(60)]
pub proof fn lemma_node_statements(args: Seq<Seq<char>>)
    ensures
        spec_node_name(0) == "rect"@ && node_code(0, args) == "{ vec2 e = abs(q) - vec2("@
            + arg_of(0, args, "w"@) + ", "@ + arg_of(0, args, "h"@)
            + "); d = length(max(e, 0.0)) + min(max(e.x, e.y), 0.0); }"@,
        spec_node_name(1) == "square"@ && node_code(1, args) == "{ vec2 e = abs(q) - vec2("@
            + arg_of(1, args, "s"@) + ", "@ + arg_of(1, args, "s"@)
            + "); d = length(max(e, 0.0)) + min(max(e.x, e.y), 0.0); }"@,
        spec_node_name(2) == "circle"@ && node_code(2, args) == "d = length(q) - "@ + arg_of(
            2,
            args,
            "r"@,
        ) + ";"@,
        spec_node_name(3) == "ring"@ && node_code(3, args) == "d = abs(length(q) - "@ + arg_of(
            3,
            args,
            "r"@,
        ) + ") - "@ + arg_of(3, args, "t"@) + ";"@,
        spec_node_name(4) == "line"@ && node_code(4, args) == "{ vec2 b = vec2("@ + arg_of(
            4,
            args,
            "x"@,
        ) + ", "@ + arg_of(4, args, "y"@)
            + "); float h = clamp(dot(q, b) / dot(b, b), 0.0, 1.0); d = length(q - b * h) - "@
            + arg_of(4, args, "t"@) + "; }"@,
        spec_node_name(5) == "fill"@ && node_code(5, args) == "d = -1.0;"@,
        spec_node_name(6) == "translate"@ && node_code(6, args) == "q -= vec2("@ + arg_of(
            6,
            args,
            "x"@,
        ) + ", "@ + arg_of(6, args, "y"@) + ");"@,
        spec_node_name(7) == "rotate"@ && node_code(7, args) == "{ float r = radians("@ + arg_of(
            7,
            args,
            "deg"@,
        ) + "); q = mat2(cos(r), -sin(r), sin(r), cos(r)) * q; }"@,
        spec_node_name(8) == "scale"@ && node_code(8, args) == "{ float s = max("@ + arg_of(
            8,
            args,
            "s"@,
        ) + ", 1e-5); q /= s; sc *= s; }"@,
        spec_node_name(9) == "grid"@ && node_code(9, args) == "{ vec2 sp = vec2("@ + arg_of(
            9,
            args,
            "sx"@,
        ) + ", "@ + arg_of(9, args, "sy"@)
            + "); vec2 c = clamp(floor(q / sp + 0.5), vec2(0.0), vec2("@ + arg_of(
            9,
            args,
            "cols"@,
        ) + ", "@ + arg_of(9, args, "rows"@) + ") - 1.0); q -= c * sp; }"@,
        spec_node_name(10) == "repeat"@ && node_code(10, args) == "{ vec2 sp = vec2("@ + arg_of(
            10,
            args,
            "sx"@,
        ) + ", "@ + arg_of(10, args, "sy"@) + "); q -= sp * floor(q / sp + 0.5); }"@,
        spec_node_name(11) == "mirror"@ && node_code(11, args) == "q = abs(q);"@,
        spec_node_name(12) == "color"@ && node_code(12, args) == "col = vec3("@ + arg_of(
            12,
            args,
            "r"@,
        ) + ", "@ + arg_of(12, args, "g"@) + ", "@ + arg_of(12, args, "b"@) + ");"@,
        spec_node_name(13) == "gray"@ && node_code(13, args) == "col = vec3("@ + arg_of(
            13,
            args,
            "v"@,
        ) + ");"@,
        spec_node_name(14) == "hsv"@ && node_code(14, args) == "col = vlfo_hsv2rgb(vec3("@
            + arg_of(14, args, "h"@) + ", "@ + arg_of(14, args, "s"@) + ", "@ + arg_of(
            14,
            args,
            "v"@,
        ) + "));"@,
        spec_node_name(15) == "alpha"@ && node_code(15, args) == "al = "@ + arg_of(
            15,
            args,
            "a"@,
        ) + ";"@,
        spec_node_name(16) == "soften"@ && node_code(16, args) == "soft = "@ + arg_of(
            16,
            args,
            "s"@,
        ) + ";"@,
        spec_node_name(17) == "outline"@ && node_code(17, args) == "d = abs(d) - "@ + arg_of(
            17,
            args,
            "t"@,
        ) + ";"@,
        spec_node_name(18) == "invert"@ && node_code(18, args) == "inv = true;"@,
{
    reveal_with_fuel(interleave, 5);
    reveal_with_fuel(crate::nodes::param_from, 5);
    reveal_strlit("w");
    reveal_strlit("h");
    reveal_strlit("s");
    reveal_strlit("r");
    reveal_strlit("t");
    reveal_strlit("x");
    reveal_strlit("y");
    reveal_strlit("cols");
    reveal_strlit("rows");
    reveal_strlit("sx");
    reveal_strlit("sy");
    reveal_strlit("g");
    reveal_strlit("b");
    reveal_strlit("v");
    assert(arg_of(0, args, "w"@) == args[0]);
    assert(arg_of(0, args, "h"@) == args[1]) by {
        assert("w"@ != "h"@) by {
            assert("w"@[0] != "h"@[0]);
        }
    }
    assert(arg_of(3, args, "r"@) == args[0]);
    assert(arg_of(3, args, "t"@) == args[1]) by {
        assert("r"@ != "t"@) by {
            assert("r"@[0] != "t"@[0]);
        }
    }
    assert(arg_of(4, args, "x"@) == args[0]);
    assert(arg_of(4, args, "y"@) == args[1]) by {
        assert("x"@ != "y"@) by {
            assert("x"@[0] != "y"@[0]);
        }
    }
    assert(arg_of(4, args, "t"@) == args[2]) by {
        assert("x"@ != "t"@) by {
            assert("x"@[0] != "t"@[0]);
        }
        assert("y"@ != "t"@) by {
            assert("y"@[0] != "t"@[0]);
        }
    }
    assert(arg_of(6, args, "x"@) == args[0]);
    assert(arg_of(6, args, "y"@) == args[1]) by {
        assert("x"@ != "y"@) by {
            assert("x"@[0] != "y"@[0]);
        }
    }
    assert(arg_of(9, args, "cols"@) == args[0]);
    assert(arg_of(9, args, "rows"@) == args[1]) by {
        assert("cols"@ != "rows"@) by {
            assert("cols"@[0] != "rows"@[0]);
        }
    }
    assert(arg_of(9, args, "sx"@) == args[2]) by {
        assert("cols"@ != "sx"@) by {
            assert("cols"@[0] != "sx"@[0]);
        }
        assert("rows"@ != "sx"@) by {
            assert("rows"@[0] != "sx"@[0]);
        }
    }
    assert(arg_of(9, args, "sy"@) == args[3]) by {
        assert("cols"@ != "sy"@) by {
            assert("cols"@[0] != "sy"@[0]);
        }
        assert("rows"@ != "sy"@) by {
            assert("rows"@[0] != "sy"@[0]);
        }
        assert("sx"@ != "sy"@) by {
            assert("sx"@[1] != "sy"@[1]);
        }
    }
    assert(arg_of(10, args, "sx"@) == args[0]);
    assert(arg_of(10, args, "sy"@) == args[1]) by {
        assert("sx"@ != "sy"@) by {
            assert("sx"@[1] != "sy"@[1]);
        }
    }
    assert(arg_of(12, args, "r"@) == args[0]);
    assert(arg_of(12, args, "g"@) == args[1]) by {
        assert("r"@ != "g"@) by {
            assert("r"@[0] != "g"@[0]);
        }
    }
    assert(arg_of(12, args, "b"@) == args[2]) by {
        assert("r"@ != "b"@) by {
            assert("r"@[0] != "b"@[0]);
        }
        assert("g"@ != "b"@) by {
            assert("g"@[0] != "b"@[0]);
        }
    }
    assert(arg_of(14, args, "h"@) == args[0]);
    assert(arg_of(14, args, "s"@) == args[1]) by {
        assert("h"@ != "s"@) by {
            assert("h"@[0] != "s"@[0]);
        }
    }
    assert(arg_of(14, args, "v"@) == args[2]) by {
        assert("h"@ != "v"@) by {
            assert("h"@[0] != "v"@[0]);
        }
        assert("s"@ != "v"@) by {
            assert("s"@[0] != "v"@[0]);
        }
    }
}

fn template_of(k: usize) -> (r: (Vec<&'static str>, Vec<usize>))
    requires
        k < NODE_COUNT,
    ensures
        r.0@.map_values(|s: &str| s@) == template(k as int).0,
        r.1@.map_values(|i: usize| i as int) == template(k as int).1,
        r.0.len() == r.1.len() + 1,
        forall|j: int| 0 <= j < r.1.len() ==> r.1@[j] < spec_params(k as int).len(),
{
    let r: (Vec<&'static str>, Vec<usize>) = if k == 0 {
        (
            vec![
                "{ vec2 e = abs(q) - vec2(",
                ", ",
                "); d = length(max(e, 0.0)) + min(max(e.x, e.y), 0.0); }",
            ],
            vec![0, 1],
        )
    } else if k == 1 {
        (
            vec![
                "{ vec2 e = abs(q) - vec2(",
                ", ",
                "); d = length(max(e, 0.0)) + min(max(e.x, e.y), 0.0); }",
            ],
            vec![0, 0],
        )
    } else if k == 2 {
        (vec!["d = length(q) - ", ";"], vec![0])
    } else if k == 3 {
        (vec!["d = abs(length(q) - ", ") - ", ";"], vec![0, 1])
    } else if k == 4 {
        (
            vec![
                "{ vec2 b = vec2(",
                ", ",
                "); float h = clamp(dot(q, b) / dot(b, b), 0.0, 1.0); d = length(q - b * h) - ",
                "; }",
            ],
            vec![0, 1, 2],
        )
    } else if k == 5 {
        (vec!["d = -1.0;"], vec![])
    } else if k == 6 {
        (vec!["q -= vec2(", ", ", ");"], vec![0, 1])
    } else if k == 7 {
        (
            vec!["{ float r = radians(", "); q = mat2(cos(r), -sin(r), sin(r), cos(r)) * q; }"],
            vec![0],
        )
    } else if k == 8 {
        (vec!["{ float s = max(", ", 1e-5); q /= s; sc *= s; }"], vec![0])
    } else if k == 9 {
        (
            vec![
                "{ vec2 sp = vec2(",
                ", ",
                "); vec2 c = clamp(floor(q / sp + 0.5), vec2(0.0), vec2(",
                ", ",
                ") - 1.0); q -= c * sp; }",
            ],
            vec![2, 3, 0, 1],
        )
    } else if k == 10 {
        (vec!["{ vec2 sp = vec2(", ", ", "); q -= sp * floor(q / sp + 0.5); }"], vec![0, 1])
    } else if k == 11 {
        (vec!["q = abs(q);"], vec![])
    } else if k == 12 {
        (vec!["col = vec3(", ", ", ", ", ");"], vec![0, 1, 2])
    } else if k == 13 {
        (vec!["col = vec3(", ");"], vec![0])
    } else if k == 14 {
        (vec!["col = vlfo_hsv2rgb(vec3(", ", ", ", ", "));"], vec![0, 1, 2])
    } else if k == 15 {
        (vec!["al = ", ";"], vec![0])
    } else if k == 16 {
        (vec!["soft = ", ";"], vec![0])
    } else if k == 17 {
        (vec!["d = abs(d) - ", ";"], vec![0])
    } else {
        (vec!["inv = true;"], vec![])
    };
    assert(r.0@.map_values(|s: &str| s@) =~= template(k as int).0);
    assert(r.1@.map_values(|i: usize| i as int) =~= template(k as int).1);
    r
}

fn push_node_code(out: &mut Vec<char>, node: &Node)
    requires
        node.kind < NODE_COUNT,
        node.args.len() == spec_params(node.kind as int).len(),
    ensures
        final(out)@ == old(out)@ + node_code(node.kind as int, strings(node.args@)),
{
    let (lits, idx) = template_of(node.kind);
    let ghost sl = template(node.kind as int).0;
    let ghost si = template(node.kind as int).1;
    let ghost a = strings(node.args@);
    assert(sl[0] == lits@[0]@);
    push_str(out, lits[0]);
    let mut j: usize = 0;
    while j < idx.len()
        invariant
            j <= idx.len(),
            lits.len() == idx.len() + 1,
            node.args.len() == spec_params(node.kind as int).len(),
            forall|m: int| 0 <= m < idx.len() ==> idx@[m] < spec_params(node.kind as int).len(),
            sl == template(node.kind as int).0,
            si == template(node.kind as int).1,
            lits@.map_values(|s: &str| s@) == sl,
            idx@.map_values(|i: usize| i as int) == si,
            a == strings(node.args@),
            out@ == old(out)@ + interleave(sl, si, a, j as int),
        decreases idx.len() - j,
    {
        let arg = &node.args[idx[j]];
        assert(a[si[j as int]] == arg@);
        push_str(out, arg.as_str());
        assert(sl[j + 1] == lits@[j + 1]@);
        push_str(out, lits[j + 1]);
        j = j + 1;
        assert(out@ =~= old(out)@ + interleave(sl, si, a, j as int));
    }
}

// ---------------------------------------------------------------- the ISF text
/// `s` without its `"` characters.
pub open spec fn without_quotes(s: Seq<char>) -> Seq<char>
    decreases s.len(),
{
    if s.len() == 0 {
        s
    } else if s.last() == '"' {
        without_quotes(s.drop_last())
    } else {
        without_quotes(s.drop_last()).push(s.last())
    }
}

pub open spec fn input_item(name: Seq<char>, v: (Seq<char>, Seq<char>, Seq<char>)) -> Seq<char> {
    "    {\"NAME\": \""@ + name + "\", \"TYPE\": \"float\", \"DEFAULT\": "@ + v.0 + ", \"MIN\": "@
        + v.1 + ", \"MAX\": "@ + v.2 + "}"@
}

/// The JSON header: description, categories, and one float input per graph
/// input with the printed values handed in for it.
pub open spec fn header(
    inputs: Seq<InputV>,
    title: Seq<char>,
    vals: Seq<(Seq<char>, Seq<char>, Seq<char>)>,
) -> Seq<char> {
    "{\n"@ + "  \"DESCRIPTION\": \"generated by vlfo from "@ + without_quotes(title) + "\",\n"@
        + "  \"CATEGORIES\": [\"Generator\", \"vlfo-graph\"],\n  \"INPUTS\": [\n"@ + joined(
        Seq::new(inputs.len(), |i: int| input_item(inputs[i].name, vals[i])),
        ",\n"@,
    ) + "\n  ]\n}"@
}

pub open spec fn hsv_fn() -> Seq<char> {
    "vec3 vlfo_hsv2rgb(vec3 c) {\n    vec4 K = vec4(1.0, 2.0 / 3.0, 1.0 / 3.0, 3.0);\n    vec3 p = abs(fract(c.xxx + K.xyz) * 6.0 - K.www);\n    return c.z * mix(K.xxx, clamp(p - K.xxx, 0.0, 1.0), c.y);\n}\n\n"@
}

pub open spec fn chain_head(name: Seq<char>) -> Seq<char> {
    "vec4 chain_"@ + name + "(vec2 p) {\n"@
        + "    vec2 q = p; float sc = 1.0; float d = -1.0; vec3 col = vec3(1.0);\n"@
        + "    float al = 1.0; float soft = 0.0; bool inv = false;\n"@
}

pub open spec fn chain_tail() -> Seq<char> {
    "    d *= sc;\n    float aa = fwidth(d) + soft;\n    float cov = 1.0 - smoothstep(0.0, aa, d);\n    if (inv) cov = 1.0 - cov;\n    return vec4(col, al * cov);\n}\n\n"@
}

/// A comment naming the node, then its statement.
pub open spec fn node_block(n: NodeV) -> Seq<char> {
    "    // "@ + spec_node_name(n.kind as int) + "\n"@ + "    "@ + node_code(n.kind as int, n.args)
        + "\n"@
}

pub open spec fn nodes_text(ns: Seq<NodeV>) -> Seq<char>
    decreases ns.len(),
{
    if ns.len() == 0 {
        Seq::empty()
    } else {
        nodes_text(ns.drop_last()) + node_block(ns.last())
    }
}

/// `vec4 chain_<name>(vec2 p)`: the chain's nodes in order, then coverage.
pub open spec fn chain_fn(c: ChainV) -> Seq<char> {
    chain_head(c.name) + nodes_text(c.nodes) + chain_tail()
}

pub open spec fn chains_text(cs: Seq<ChainV>) -> Seq<char>
    decreases cs.len(),
{
    if cs.len() == 0 {
        Seq::empty()
    } else {
        chains_text(cs.drop_last()) + chain_fn(cs.last())
    }
}

pub open spec fn main_head() -> Seq<char> {
    "void main() {\n    float aspect = RENDERSIZE.x / RENDERSIZE.y;\n    vec2 p = (isf_FragNormCoord - 0.5) * vec2(8.0 * aspect, 8.0);\n    vec3 acc = vec3(0.0);\n"@
}

/// One chain composited over what is below it.
pub open spec fn mix_line(name: Seq<char>) -> Seq<char> {
    "    { vec4 c = chain_"@ + name + "(p); acc = mix(acc, c.rgb, clamp(c.a, 0.0, 1.0)); }\n"@
}

pub open spec fn mix_text(cs: Seq<ChainV>) -> Seq<char>
    decreases cs.len(),
{
    if cs.len() == 0 {
        Seq::empty()
    } else {
        mix_text(cs.drop_last()) + mix_line(cs.last().name)
    }
}

pub open spec fn main_tail() -> Seq<char> {
    "    gl_FragColor = vec4(acc, 1.0);\n}\n"@
}

/// The ISF shader of a graph: the header in a leading comment, the colour
/// helper, the chain functions, and `main`, which composites the chains in
/// file order.
pub open spec fn isf_text(
    g: GraphV,
    title: Seq<char>,
    vals: Seq<(Seq<char>, Seq<char>, Seq<char>)>,
) -> Seq<char> {
    "/*"@ + header(g.inputs, title, vals) + "*/\n\n"@ + hsv_fn() + chains_text(g.chains)
        + main_head() + mix_text(g.chains) + main_tail()
}

fn push_without_quotes(out: &mut Vec<char>, s: &str)
    ensures
        final(out)@ == old(out)@ + without_quotes(s@),
{
    let v = chars_of(s);
    let mut i: usize = 0;
    while i < v.len()
        invariant
            i <= v.len(),
            v@ == s@,
            out@ == old(out)@ + without_quotes(v@.take(i as int)),
        decreases v.len() - i,
    {
        assert(v@.take(i + 1).drop_last() =~= v@.take(i as int));
        if v[i] != '"' {
            out.push(v[i]);
        }
        i = i + 1;
        assert(out@ =~= old(out)@ + without_quotes(v@.take(i as int)));
    }
    assert(v@.take(v.len() as int) =~= v@);
}

fn push_item(out: &mut Vec<char>, name: &String, v: &InputValues)
    ensures
        final(out)@ == old(out)@ + input_item(name@, (v.default@, v.min@, v.max@)),
{
    push_str(out, "    {\"NAME\": \"");
    push_str(out, name.as_str());
    push_str(out, "\", \"TYPE\": \"float\", \"DEFAULT\": ");
    push_str(out, v.default.as_str());
    push_str(out, ", \"MIN\": ");
    push_str(out, v.min.as_str());
    push_str(out, ", \"MAX\": ");
    push_str(out, v.max.as_str());
    push_str(out, "}");
    assert(out@ =~= old(out)@ + input_item(name@, (v.default@, v.min@, v.max@)));
}

fn push_header(out: &mut Vec<char>, g: &Graph, title: &str, vals: &Vec<InputValues>)
    requires
        vals.len() == g.inputs.len(),
    ensures
        final(out)@ == old(out)@ + header(inputs_view(g.inputs@), title@, values_view(vals@)),
{
    let ghost ins = inputs_view(g.inputs@);
    let ghost vv = values_view(vals@);
    let ghost items = Seq::new(ins.len(), |i: int| input_item(ins[i].name, vv[i]));
    push_str(out, "{\n");
    push_str(out, "  \"DESCRIPTION\": \"generated by vlfo from ");
    push_without_quotes(out, title);
    push_str(out, "\",\n");
    push_str(out, "  \"CATEGORIES\": [\"Generator\", \"vlfo-graph\"],\n  \"INPUTS\": [\n");
    let ghost start = out@;
    let mut i: usize = 0;
    while i < g.inputs.len()
        invariant
            i <= g.inputs.len() == vals.len(),
            ins == inputs_view(g.inputs@),
            vv == values_view(vals@),
            items == Seq::new(ins.len(), |j: int| input_item(ins[j].name, vv[j])),
            out@ == start + joined(items.take(i as int), ",\n"@),
        decreases g.inputs.len() - i,
    {
        let ghost before = out@;
        if i > 0 {
            push_str(out, ",\n");
        }
        push_item(out, &g.inputs[i].name, &vals[i]);
        assert(items[i as int] == input_item(ins[i as int].name, vv[i as int]));
        i = i + 1;
        assert(items.take(i as int).drop_last() =~= items.take(i - 1));
        if i == 1 {
            assert(items.take(1) =~= seq![items[0]]);
        }
        assert(out@ =~= start + joined(items.take(i as int), ",\n"@));
    }
    assert(items.take(g.inputs.len() as int) =~= items);
    push_str(out, "\n  ]\n}");
    assert(out@ =~= old(out)@ + header(ins, title@, vv));
}

fn push_chain(out: &mut Vec<char>, c: &Chain)
    requires
        forall|n: int|
            0 <= n < c.nodes.len() ==> (#[trigger] c.nodes@[n]).kind < NODE_COUNT && c.nodes@[n].args.len()
                == spec_params(c.nodes@[n].kind as int).len(),
    ensures
        final(out)@ == old(out)@ + chain_fn(c@),
{
    push_str(out, "vec4 chain_");
    push_str(out, c.name.as_str());
    push_str(out, "(vec2 p) {\n");
    push_str(out, "    vec2 q = p; float sc = 1.0; float d = -1.0; vec3 col = vec3(1.0);\n");
    push_str(out, "    float al = 1.0; float soft = 0.0; bool inv = false;\n");
    let ghost start = out@;
    let ghost ns = nodes_view(c.nodes@);
    let mut i: usize = 0;
    while i < c.nodes.len()
        invariant
            i <= c.nodes.len(),
            ns == nodes_view(c.nodes@),
            forall|n: int|
                0 <= n < c.nodes.len() ==> (#[trigger] c.nodes@[n]).kind < NODE_COUNT
                    && c.nodes@[n].args.len() == spec_params(c.nodes@[n].kind as int).len(),
            out@ == start + nodes_text(ns.take(i as int)),
        decreases c.nodes.len() - i,
    {
        let node = &c.nodes[i];
        push_str(out, "    // ");
        push_str(out, node_name(node.kind));
        push_str(out, "\n");
        push_str(out, "    ");
        push_node_code(out, node);
        push_str(out, "\n");
        i = i + 1;
        assert(ns.take(i as int).drop_last() =~= ns.take(i - 1));
        assert(out@ =~= start + nodes_text(ns.take(i as int)));
    }
    assert(ns.take(c.nodes.len() as int) =~= ns);
    push_str(
        out,
        "    d *= sc;\n    float aa = fwidth(d) + soft;\n    float cov = 1.0 - smoothstep(0.0, aa, d);\n    if (inv) cov = 1.0 - cov;\n    return vec4(col, al * cov);\n}\n\n",
    );
    assert(out@ =~= old(out)@ + chain_fn(c@));
}

/// The ISF shader (JSON header + GLSL body) of a parsed graph, with the
/// printed default, minimum and maximum of each input, in input order.
pub fn compile(graph: &Graph, title: &str, values: &Vec<InputValues>) -> (r: String)
    requires
        values.len() == graph.inputs.len(),
        well_formed(graph@),
    ensures
        r@ == isf_text(graph@, title@, values_view(values@)),
{
    let mut out: Vec<char> = Vec::new();
    push_str(&mut out, "/*");
    push_header(&mut out, graph, title, values);
    push_str(&mut out, "*/\n\n");
    push_str(
        &mut out,
        "vec3 vlfo_hsv2rgb(vec3 c) {\n    vec4 K = vec4(1.0, 2.0 / 3.0, 1.0 / 3.0, 3.0);\n    vec3 p = abs(fract(c.xxx + K.xyz) * 6.0 - K.www);\n    return c.z * mix(K.xxx, clamp(p - K.xxx, 0.0, 1.0), c.y);\n}\n\n",
    );
    let ghost cs = chains_view(graph.chains@);
    let ghost start = out@;
    let mut i: usize = 0;
    while i < graph.chains.len()
        invariant
            i <= graph.chains.len(),
            cs == chains_view(graph.chains@),
            well_formed(graph@),
            out@ == start + chains_text(cs.take(i as int)),
        decreases graph.chains.len() - i,
    {
        proof {
            assert(crate::graph::nodes_ok(graph@.chains[i as int].nodes));
            assert forall|n: int| 0 <= n < graph.chains@[i as int].nodes.len() implies (
            #[trigger] graph.chains@[i as int].nodes@[n]).kind < NODE_COUNT
                && graph.chains@[i as int].nodes@[n].args.len() == spec_params(
                graph.chains@[i as int].nodes@[n].kind as int,
            ).len() by {
                assert(graph@.chains[i as int].nodes[n] == graph.chains@[i as int].nodes@[n]@);
            }
        }
        push_chain(&mut out, &graph.chains[i]);
        i = i + 1;
        assert(cs.take(i as int).drop_last() =~= cs.take(i - 1));
        assert(out@ =~= start + chains_text(cs.take(i as int)));
    }
    assert(cs.take(graph.chains.len() as int) =~= cs);
    push_str(
        &mut out,
        "void main() {\n    float aspect = RENDERSIZE.x / RENDERSIZE.y;\n    vec2 p = (isf_FragNormCoord - 0.5) * vec2(8.0 * aspect, 8.0);\n    vec3 acc = vec3(0.0);\n",
    );
    let ghost mid = out@;
    let mut j: usize = 0;
    while j < graph.chains.len()
        invariant
            j <= graph.chains.len(),
            cs == chains_view(graph.chains@),
            out@ == mid + mix_text(cs.take(j as int)),
        decreases graph.chains.len() - j,
    {
        push_str(&mut out, "    { vec4 c = chain_");
        push_str(&mut out, graph.chains[j].name.as_str());
        push_str(&mut out, "(p); acc = mix(acc, c.rgb, clamp(c.a, 0.0, 1.0)); }\n");
        j = j + 1;
        assert(cs.take(j as int).drop_last() =~= cs.take(j - 1));
        assert(out@ =~= mid + mix_text(cs.take(j as int)));
    }
    push_str(&mut out, "    gl_FragColor = vec4(acc, 1.0);\n}\n");
    assert(out@ =~= isf_text(graph@, title@, values_view(values@)));
    string_of(&out)
}

} // verus!
