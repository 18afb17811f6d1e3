//! Node graphs -> ISF shaders.
//!
//! A `.vlfo` file is a list of chains, GEM-style, one per line:
//!
//!     in spread 60 0 400                 # a declared input (float, default, min, max)
//!     a = translate -3 0 | grid 5 6 spread*0.01 1 | rect 0.3 0.1 | gray 0.5
//!     b = circle 1 | color 1 0.2 0.1
//!
//! Each chain draws one thing. Transform nodes move the sample point, a shape
//! node yields a signed distance, paint nodes set colour and alpha. Chains are
//! composited in file order, later ones over earlier ones.
//!
//! Every numeric literal becomes an ISF input named `<chain>_<node>_<param>`
//! so it is a knob without declaring anything. An argument that is not a
//! plain number is a GLSL expression and is inlined.
//!
//! Numbers are kept as the literal text that names them: [`parse_graph`]
//! states each input's default, minimum and maximum over literals, and
//! [`compile`] writes the values it is handed for them.
use vstd::prelude::*;
use crate::text::{
    before, chars_of, decimal, lines, lines_of, push_decimal, split, split_chars, split_once,
    split_once_char, string_of, trim, trim_chars, views, words, words_of, lemma_split_len,
    starts_with, push_str, joined, debug_quoted, quoted, find, is_ws,
};
use crate::lexical::{float_literal, is_float_literal, is_ident, spec_is_ident};
use crate::nodes::{
    find_param, lookup, node_def, node_name, node_params, param_index, param_view, spec_node_name,
    spec_params, ParamDef, ParamV, NODE_COUNT,
};

verus! {

// ---------------------------------------------------------------- the graph
/// A number written as literal text that `str::parse::<f32>` accepts.
#[derive(Debug)]
pub enum Num {
    /// The value of the literal.
    Lit(String),
    /// `a.min(b)` of the two literals.
    Min(String, String),
    /// `a.max(b)` of the two literals.
    Max(String, String),
}

pub enum NumV {
    Lit(Seq<char>),
    Min(Seq<char>, Seq<char>),
    Max(Seq<char>, Seq<char>),
}

impl View for Num {
    type V = NumV;

    open spec fn view(&self) -> NumV {
        match self {
            Num::Lit(a) => NumV::Lit(a@),
            Num::Min(a, b) => NumV::Min(a@, b@),
            Num::Max(a, b) => NumV::Max(a@, b@),
        }
    }
}

/// A float input of the generated shader.
#[derive(Debug)]
pub struct GraphInput {
    pub name: String,
    pub default: Num,
    pub min: Num,
    pub max: Num,
}

pub struct InputV {
    pub name: Seq<char>,
    pub default: NumV,
    pub min: NumV,
    pub max: NumV,
}

impl View for GraphInput {
    type V = InputV;

    open spec fn view(&self) -> InputV {
        InputV { name: self.name@, default: self.default@, min: self.min@, max: self.max@ }
    }
}

/// A node of a chain: its type (an index into the node table) and one GLSL
/// expression per parameter.
#[derive(Debug)]
pub struct Node {
    pub kind: usize,
    pub args: Vec<String>,
}

pub struct NodeV {
    pub kind: nat,
    pub args: Seq<Seq<char>>,
}

pub open spec fn strings(v: Seq<String>) -> Seq<Seq<char>> {
    v.map_values(|s: String| s@)
}

impl View for Node {
    type V = NodeV;

    open spec fn view(&self) -> NodeV {
        NodeV { kind: self.kind as nat, args: strings(self.args@) }
    }
}

/// A named chain of nodes; it draws one thing.
#[derive(Debug)]
pub struct Chain {
    pub name: String,
    pub nodes: Vec<Node>,
}

pub struct ChainV {
    pub name: Seq<char>,
    pub nodes: Seq<NodeV>,
}

pub open spec fn nodes_view(v: Seq<Node>) -> Seq<NodeV> {
    v.map_values(|n: Node| n@)
}

impl View for Chain {
    type V = ChainV;

    open spec fn view(&self) -> ChainV {
        ChainV { name: self.name@, nodes: nodes_view(self.nodes@) }
    }
}

/// A parsed graph: the shader's inputs in order, and the chains in file order.
#[derive(Debug)]
pub struct Graph {
    pub inputs: Vec<GraphInput>,
    pub chains: Vec<Chain>,
}

pub struct GraphV {
    pub inputs: Seq<InputV>,
    pub chains: Seq<ChainV>,
}

pub open spec fn inputs_view(v: Seq<GraphInput>) -> Seq<InputV> {
    v.map_values(|i: GraphInput| i@)
}

pub open spec fn chains_view(v: Seq<Chain>) -> Seq<ChainV> {
    v.map_values(|c: Chain| c@)
}

impl View for Graph {
    type V = GraphV;

    open spec fn view(&self) -> GraphV {
        GraphV { inputs: inputs_view(self.inputs@), chains: chains_view(self.chains@) }
    }
}

// ---------------------------------------------------------------- errors
/// What is wrong with a line.
#[derive(Debug)]
pub enum Problem {
    /// `in` without a valid name.
    ExpectedInput,
    /// A token of an `in` line that is not a number.
    BadNumber(String),
    /// A line that is neither `in ...` nor `name = ...`.
    ExpectedChain,
    /// A chain name that is not an identifier.
    BadChainName(String),
    /// A chain name already used by a chain or a declared input.
    AlreadyDefined(String),
    /// An empty segment between `|`.
    EmptyNode,
    /// A node name that is not in the node table.
    UnknownNode(String),
    /// `key=value` where the node has no parameter `key`: node, key.
    NoParameter(String, String),
    /// More positional arguments than parameters: node, parameter count.
    TooManyArgs(String, usize),
}

pub enum ProblemV {
    ExpectedInput,
    BadNumber(Seq<char>),
    ExpectedChain,
    BadChainName(Seq<char>),
    AlreadyDefined(Seq<char>),
    EmptyNode,
    UnknownNode(Seq<char>),
    NoParameter(Seq<char>, Seq<char>),
    TooManyArgs(Seq<char>, nat),
}

impl View for Problem {
    type V = ProblemV;

    open spec fn view(&self) -> ProblemV {
        match self {
            Problem::ExpectedInput => ProblemV::ExpectedInput,
            Problem::BadNumber(s) => ProblemV::BadNumber(s@),
            Problem::ExpectedChain => ProblemV::ExpectedChain,
            Problem::BadChainName(s) => ProblemV::BadChainName(s@),
            Problem::AlreadyDefined(s) => ProblemV::AlreadyDefined(s@),
            Problem::EmptyNode => ProblemV::EmptyNode,
            Problem::UnknownNode(s) => ProblemV::UnknownNode(s@),
            Problem::NoParameter(a, b) => ProblemV::NoParameter(a@, b@),
            Problem::TooManyArgs(a, n) => ProblemV::TooManyArgs(a@, *n as nat),
        }
    }
}

/// Why a graph does not compile.
#[derive(Debug)]
pub enum GraphError {
    /// A problem on a line (numbered from 1), with the line as written.
    At { line: usize, raw: String, problem: Problem },
    /// The source defines no chain.
    NoChains,
}

pub enum ErrV {
    At { line: nat, raw: Seq<char>, problem: ProblemV },
    NoChains,
}

impl View for GraphError {
    type V = ErrV;

    open spec fn view(&self) -> ErrV {
        match self {
            GraphError::At { line, raw, problem } => ErrV::At {
                line: *line as nat,
                raw: raw@,
                problem: problem@,
            },
            GraphError::NoChains => ErrV::NoChains,
        }
    }
}

// ---------------------------------------------------------------- the language
/// Parse state: inputs and chains so far, and the names declared by `in`.
pub struct St {
    pub inputs: Seq<InputV>,
    pub chains: Seq<ChainV>,
    pub declared: Seq<Seq<char>>,
}

/// `in NAME [DEFAULT [MIN [MAX]]]`, given what follows `in `.
pub open spec fn decl_step(st: St, rest: Seq<char>) -> Result<St, ProblemV> {
    let t = words(rest);
    if t.len() == 0 || !spec_is_ident(t[0]) {
        Err(ProblemV::ExpectedInput)
    } else if t.len() > 1 && !float_literal(t[1]) {
        Err(ProblemV::BadNumber(t[1]))
    } else if t.len() > 2 && !float_literal(t[2]) {
        Err(ProblemV::BadNumber(t[2]))
    } else if t.len() > 3 && !float_literal(t[3]) {
        Err(ProblemV::BadNumber(t[3]))
    } else {
        let d = if t.len() > 1 {
            t[1]
        } else {
            "0"@
        };
        let input = InputV {
            name: t[0],
            default: NumV::Lit(d),
            min: if t.len() > 2 {
                NumV::Lit(t[2])
            } else {
                NumV::Min(d, "0"@)
            },
            max: if t.len() > 3 {
                NumV::Lit(t[3])
            } else {
                NumV::Max(d, "1"@)
            },
        };
        Ok(St { inputs: st.inputs.push(input), chains: st.chains, declared: st.declared.push(t[0]) })
    }
}

/// Arguments of a node so far (`None` where not given) and the next
/// positional slot, after the first `n` argument tokens.
pub open spec fn args_run(k: int, rest: Seq<Seq<char>>, n: nat) -> Result<
    (Seq<Option<Seq<char>>>, nat),
    ProblemV,
>
    decreases n,
{
    if n == 0 {
        Ok((Seq::new(spec_params(k).len(), |i: int| None), 0))
    } else {
        match args_run(k, rest, (n - 1) as nat) {
            Err(p) => Err(p),
            Ok((args, pos)) => arg_step(k, rest[n - 1], args, pos),
        }
    }
}

/// One argument token: `key=value` with an identifier key, else positional.
pub open spec fn arg_step(k: int, tok: Seq<char>, args: Seq<Option<Seq<char>>>, pos: nat) -> Result<
    (Seq<Option<Seq<char>>>, nat),
    ProblemV,
> {
    let kw = match split_once(tok, '=') {
        Some((key, v)) => spec_is_ident(key),
        None => false,
    };
    if kw {
        let (key, v) = split_once(tok, '=').unwrap();
        match param_index(k, key) {
            None => Err(ProblemV::NoParameter(spec_node_name(k), key)),
            Some(pi) => Ok((args.update(pi as int, Some(v)), pos)),
        }
    } else if pos >= spec_params(k).len() {
        Err(ProblemV::TooManyArgs(spec_node_name(k), spec_params(k).len()))
    } else {
        Ok((args.update(pos as int, Some(tok)), pos + 1))
    }
}

/// The number a parameter stands for, when it is a literal (given or
/// omitted); `None` when it is an expression.
pub open spec fn literal_of(k: int, args: Seq<Option<Seq<char>>>, i: int) -> Option<Seq<char>> {
    match args[i] {
        None => Some(spec_params(k)[i].1),
        Some(v) => if float_literal(v) {
            Some(v)
        } else {
            None
        },
    }
}

/// `<chain>_<node><suffix>_<param>`
pub open spec fn input_name(chain: Seq<char>, k: int, suffix: Seq<char>, i: int) -> Seq<char> {
    chain + "_"@ + spec_node_name(k) + suffix + "_"@ + spec_params(k)[i].0
}

/// The inputs that parameters `0..i` of a node create, in order.
pub open spec fn node_inputs(
    chain: Seq<char>,
    k: int,
    suffix: Seq<char>,
    args: Seq<Option<Seq<char>>>,
    i: int,
) -> Seq<InputV>
    decreases i,
{
    if i <= 0 {
        Seq::empty()
    } else {
        let prev = node_inputs(chain, k, suffix, args, i - 1);
        match literal_of(k, args, i - 1) {
            Some(v) => {
                let p = spec_params(k)[i - 1];
                prev.push(
                    InputV {
                        name: input_name(chain, k, suffix, i - 1),
                        default: NumV::Lit(v),
                        min: NumV::Min(p.2, v),
                        max: NumV::Max(p.3, v),
                    },
                )
            },
            None => prev,
        }
    }
}

/// The GLSL expression of parameter `i`: its input's name, or the inlined
/// expression in parentheses.
pub open spec fn expr_of(
    chain: Seq<char>,
    k: int,
    suffix: Seq<char>,
    args: Seq<Option<Seq<char>>>,
    i: int,
) -> Seq<char> {
    match literal_of(k, args, i) {
        Some(_) => input_name(chain, k, suffix, i),
        None => "("@ + args[i].unwrap() + ")"@,
    }
}

/// How many of `nodes` have type `k`.
pub open spec fn count_kind(nodes: Seq<NodeV>, k: nat) -> nat
    decreases nodes.len(),
{
    if nodes.len() == 0 {
        0
    } else {
        count_kind(nodes.drop_last(), k) + if nodes.last().kind == k {
            1nat
        } else {
            0nat
        }
    }
}

/// The `n`-th node of a type gets the suffix `n`, the first none.
pub open spec fn suffix_of(n: nat) -> Seq<char> {
    if n == 1 {
        Seq::empty()
    } else {
        decimal(n)
    }
}

/// One `|` segment of a chain.
pub open spec fn node_step(
    chain: Seq<char>,
    seg: Seq<char>,
    ins: Seq<InputV>,
    nodes: Seq<NodeV>,
) -> Result<(Seq<InputV>, Seq<NodeV>), ProblemV> {
    let toks = words(seg);
    if toks.len() == 0 {
        Err(ProblemV::EmptyNode)
    } else {
        match lookup(toks[0]) {
            None => Err(ProblemV::UnknownNode(toks[0])),
            Some(k) => match args_run(k as int, toks.drop_first(), (toks.len() - 1) as nat) {
                Err(p) => Err(p),
                Ok((args, pos)) => {
                    let suffix = suffix_of(count_kind(nodes, k) + 1);
                    let np = spec_params(k as int).len() as int;
                    Ok(
                        (
                            ins + node_inputs(chain, k as int, suffix, args, np),
                            nodes.push(
                                NodeV {
                                    kind: k,
                                    args: Seq::new(
                                        np as nat,
                                        |i: int| expr_of(chain, k as int, suffix, args, i),
                                    ),
                                },
                            ),
                        ),
                    )
                },
            },
        }
    }
}

/// The first `n` segments of a chain.
pub open spec fn segs_run(chain: Seq<char>, segs: Seq<Seq<char>>, n: nat, ins: Seq<InputV>) -> Result<
    (Seq<InputV>, Seq<NodeV>),
    ProblemV,
>
    decreases n,
{
    if n == 0 {
        Ok((ins, Seq::empty()))
    } else {
        match segs_run(chain, segs, (n - 1) as nat, ins) {
            Err(p) => Err(p),
            Ok((i2, nodes)) => node_step(chain, segs[n - 1], i2, nodes),
        }
    }
}

pub open spec fn name_taken(st: St, name: Seq<char>) -> bool {
    (exists|i: int| 0 <= i < st.chains.len() && st.chains[i].name == name) || st.declared.contains(
        name,
    )
}

/// `name = node ... | node ...`
pub open spec fn chain_step(st: St, line: Seq<char>) -> Result<St, ProblemV> {
    match split_once(line, '=') {
        None => Err(ProblemV::ExpectedChain),
        Some((lhs, body)) => {
            let name = trim(lhs);
            if !spec_is_ident(name) {
                Err(ProblemV::BadChainName(name))
            } else if name_taken(st, name) {
                Err(ProblemV::AlreadyDefined(name))
            } else {
                let segs = split(body, '|');
                match segs_run(name, segs, segs.len(), st.inputs) {
                    Err(p) => Err(p),
                    Ok((ins, nodes)) => Ok(
                        St {
                            inputs: ins,
                            chains: st.chains.push(ChainV { name, nodes }),
                            declared: st.declared,
                        },
                    ),
                }
            }
        },
    }
}

/// The text of a line that counts: before any `#`, trimmed.
pub open spec fn content(raw: Seq<char>) -> Seq<char> {
    trim(before(raw, '#'))
}

/// Line number `n` (from 1), as written.
pub open spec fn line_step(st: St, raw: Seq<char>, n: nat) -> Result<St, ErrV> {
    let line = content(raw);
    let r = if line.len() == 0 {
        Ok(st)
    } else if line.len() >= 3 && line.take(3) == "in "@ {
        decl_step(st, line.skip(3))
    } else {
        chain_step(st, line)
    };
    match r {
        Ok(s) => Ok(s),
        Err(p) => Err(ErrV::At { line: n, raw, problem: p }),
    }
}

/// The state after the first `n` lines.
pub open spec fn lines_run(ls: Seq<Seq<char>>, n: nat) -> Result<St, ErrV>
    decreases n,
{
    if n == 0 {
        Ok(St { inputs: Seq::empty(), chains: Seq::empty(), declared: Seq::empty() })
    } else {
        match lines_run(ls, (n - 1) as nat) {
            Err(e) => Err(e),
            Ok(st) => line_step(st, ls[n - 1], n),
        }
    }
}

/// What a graph source means: its inputs and chains, or the first error.
pub open spec fn graph_of(src: Seq<char>) -> Result<GraphV, ErrV> {
    let ls = lines(src);
    match lines_run(ls, ls.len()) {
        Err(e) => Err(e),
        Ok(st) => if st.chains.len() == 0 {
            Err(ErrV::NoChains)
        } else {
            Ok(GraphV { inputs: st.inputs, chains: st.chains })
        },
    }
}

// ---------------------------------------------------------------- parsing
fn string_vec_of(v: &Vec<char>) -> (s: String)
    ensures
        s@ == v@,
{
    string_of(v)
}

fn lit(s: &str) -> (r: String)
    ensures
        r@ == s@,
{
    let v = chars_of(s);
    string_of(&v)
}

fn parse_decl(inputs: &mut Vec<GraphInput>, declared: &mut Vec<Vec<char>>, rest: &Vec<char>, Ghost(
    st,
): Ghost<St>) -> (r: Result<(), Problem>)
    requires
        inputs_view(old(inputs)@) == st.inputs,
        views(old(declared)@) == st.declared,
    ensures
        match decl_step(st, rest@) {
            Ok(s2) => r is Ok && inputs_view(final(inputs)@) == s2.inputs && views(
                final(declared)@,
            ) == s2.declared,
            Err(p) => r matches Err(q) && q@ == p,
        },
{
    let t = words_of(rest);
    assert(views(t@).len() == t.len());
    if t.len() == 0 || !is_ident(&t[0]) {
        return Err(Problem::ExpectedInput);
    }
    let mut j: usize = 1;
    while j < 4
        invariant
            1 <= j <= 4,
            views(t@) == words(rest@),
            t.len() > 0,
            spec_is_ident(t@[0]@),
            forall|m: int| 1 <= m < j && m < t.len() ==> float_literal(t@[m]@),
        decreases 4 - j,
    {
        if j < t.len() && !is_float_literal(&t[j]) {
            return Err(Problem::BadNumber(string_vec_of(&t[j])));
        }
        j = j + 1;
    }
    let d = if t.len() > 1 {
        string_vec_of(&t[1])
    } else {
        lit("0")
    };
    let min = if t.len() > 2 {
        Num::Lit(string_vec_of(&t[2]))
    } else {
        Num::Min(d.clone(), lit("0"))
    };
    let max = if t.len() > 3 {
        Num::Lit(string_vec_of(&t[3]))
    } else {
        Num::Max(d.clone(), lit("1"))
    };
    let name = string_vec_of(&t[0]);
    let ghost oi = inputs_view(inputs@);
    let ghost od = views(declared@);
    let inp = GraphInput { name, default: Num::Lit(d), min, max };
    inputs.push(inp);
    declared.push(crate::text::copy_range(&t[0], 0, t[0].len()));
    proof {
        assert(inputs_view(inputs@) =~= oi.push(inputs@.last()@));
        assert(t@[0]@.subrange(0, t@[0]@.len() as int) =~= t@[0]@);
        assert(views(declared@) =~= od.push(t@[0]@));
    }
    Ok(())
}

pub open spec fn opt_views(v: Seq<Option<Vec<char>>>) -> Seq<Option<Seq<char>>> {
    v.map_values(|o: Option<Vec<char>>| match o {
        Some(x) => Some(x@),
        None => None,
    })
}

proof fn lemma_args_err(k: int, rest: Seq<Seq<char>>, m: nat, n: nat)
    requires
        m <= n,
        args_run(k, rest, m) is Err,
    ensures
        args_run(k, rest, n) == args_run(k, rest, m),
    decreases n - m,
{
    if m < n {
        lemma_args_err(k, rest, m, (n - 1) as nat);
    }
}

proof fn lemma_args_len(k: int, rest: Seq<Seq<char>>, n: nat)
    ensures
        args_run(k, rest, n) matches Ok((args, pos)) ==> args.len() == spec_params(k).len(),
    decreases n,
{
    if n > 0 {
        lemma_args_len(k, rest, (n - 1) as nat);
        if let Ok((args, pos)) = args_run(k, rest, (n - 1) as nat) {
            let tok = rest[n - 1];
            crate::nodes::lemma_param_bound(spec_params(k), split_once(tok, '=').unwrap().0, 0);
            match arg_step(k, tok, args, pos) {
                Ok((a2, p2)) => {
                    assert(a2.len() == args.len());
                },
                Err(_) => {},
            }
        }
    }
}

fn parse_args(k: usize, toks: &Vec<Vec<char>>) -> (r: Result<(Vec<Option<Vec<char>>>, usize), Problem>)
    requires
        k < NODE_COUNT,
        toks.len() >= 1,
    ensures
        match args_run(k as int, views(toks@).drop_first(), (toks.len() - 1) as nat) {
            Ok((args, pos)) => r matches Ok((a, p)) && opt_views(a@) == args && p == pos,
            Err(e) => r matches Err(q) && q@ == e,
        },
{
    let ghost rest = views(toks@).drop_first();
    let ps = node_params(k);
    let np = ps.len();
    assert(np == spec_params(k as int).len()) by {
        assert(ps@.map_values(|p: ParamDef| param_view(p)).len() == ps@.len());
    }
    let mut args: Vec<Option<Vec<char>>> = Vec::new();
    let mut i: usize = 0;
    while i < np
        invariant
            i <= np,
            opt_views(args@) =~= Seq::new(i as nat, |j: int| None::<Seq<char>>),
        decreases np - i,
    {
        let ghost oa = opt_views(args@);
        args.push(None);
        assert(opt_views(args@) =~= oa.push(None));
        i = i + 1;
    }
    let mut pos: usize = 0;
    let mut n: usize = 1;
    while n < toks.len()
        invariant
            k < NODE_COUNT,
            1 <= n <= toks.len(),
            np == spec_params(k as int).len(),
            rest == views(toks@).drop_first(),
            args_run(k as int, rest, (n - 1) as nat) == Ok::<_, ProblemV>((opt_views(args@), pos as nat)),
            args.len() == np,
            pos <= np,
        decreases toks.len() - n,
    {
        let tok = &toks[n];
        assert(rest[n - 1] == tok@);
        let so = split_once_char(tok, '=');
        let mut handled = false;
        match so {
            Some((key, v)) => {
                if is_ident(&key) {
                    handled = true;
                    match find_param(k, &key) {
                        None => {
                            proof {
                                lemma_args_err(k as int, rest, n as nat, (toks.len() - 1) as nat);
                            }
                            return Err(Problem::NoParameter(lit(node_name(k)), string_of(&key)));
                        },
                        Some(pi) => {
                            let ghost oa = opt_views(args@);
                            args.set(pi, Some(v));
                            assert(opt_views(args@) =~= oa.update(pi as int, Some(v@)));
                        },
                    }
                }
            },
            None => {},
        }
        if !handled {
            if pos >= np {
                proof {
                    lemma_args_err(k as int, rest, n as nat, (toks.len() - 1) as nat);
                }
                return Err(Problem::TooManyArgs(lit(node_name(k)), np));
            }
            let ghost oa = opt_views(args@);
            let t2 = crate::text::copy_range(tok, 0, tok.len());
            assert(t2@ =~= tok@);
            args.set(pos, Some(t2));
            assert(opt_views(args@) =~= oa.update(pos as int, Some(tok@)));
            pos = pos + 1;
        }
        n = n + 1;
    }
    Ok((args, pos))
}

/// How many of `nodes` have type `k`.
fn count_of(nodes: &Vec<Node>, k: usize) -> (c: usize)
    ensures
        c == count_kind(nodes_view(nodes@), k as nat),
        c <= nodes.len(),
{
    let mut c: usize = 0;
    let mut i: usize = 0;
    while i < nodes.len()
        invariant
            i <= nodes.len(),
            c <= i,
            c == count_kind(nodes_view(nodes@).take(i as int), k as nat),
        decreases nodes.len() - i,
    {
        assert(nodes_view(nodes@).take(i + 1).drop_last() =~= nodes_view(nodes@).take(i as int));
        if nodes[i].kind == k {
            c = c + 1;
        }
        i = i + 1;
    }
    assert(nodes_view(nodes@).take(nodes.len() as int) =~= nodes_view(nodes@));
    c
}

/// Appends the inputs of a node's literal parameters and returns its
/// arguments as GLSL expressions.
fn node_exprs(
    inputs: &mut Vec<GraphInput>,
    chain: &Vec<char>,
    k: usize,
    suffix: &Vec<char>,
    args: &Vec<Option<Vec<char>>>,
) -> (exprs: Vec<String>)
    requires
        k < NODE_COUNT,
        args.len() == spec_params(k as int).len(),
    ensures
        inputs_view(final(inputs)@) == inputs_view(old(inputs)@) + node_inputs(
            chain@,
            k as int,
            suffix@,
            opt_views(args@),
            args.len() as int,
        ),
        strings(exprs@) == Seq::new(
            args.len() as nat,
            |i: int| expr_of(chain@, k as int, suffix@, opt_views(args@), i),
        ),
{
    let ps = node_params(k);
    let ghost sp = spec_params(k as int);
    let ghost a = opt_views(args@);
    let mut exprs: Vec<String> = Vec::new();
    let mut i: usize = 0;
    while i < args.len()
        invariant
            k < NODE_COUNT,
            i <= args.len() == ps.len() == sp.len(),
            sp == spec_params(k as int),
            a == opt_views(args@),
            ps@.map_values(|p: ParamDef| param_view(p)) == sp,
            inputs_view(inputs@) == inputs_view(old(inputs)@) + node_inputs(
                chain@,
                k as int,
                suffix@,
                a,
                i as int,
            ),
            strings(exprs@) == Seq::new(
                i as nat,
                |j: int| expr_of(chain@, k as int, suffix@, a, j),
            ),
        decreases args.len() - i,
    {
        assert(param_view(ps@[i as int]) == sp[i as int]);
        let value: Option<Vec<char>> = match &args[i] {
            None => Some(chars_of(ps[i].default)),
            Some(v) => if is_float_literal(v) {
                Some(crate::text::copy_range(v, 0, v.len()))
            } else {
                None
            },
        };
        proof {
            if let Some(v) = &args@[i as int] {
                assert(v@.subrange(0, v@.len() as int) =~= v@);
            }
        }
        assert(match value {
            Some(v) => literal_of(k as int, a, i as int) == Some(v@),
            None => literal_of(k as int, a, i as int) is None,
        });
        let ghost oi = inputs_view(inputs@);
        let ghost oe = strings(exprs@);
        match value {
            Some(v) => {
                let mut nm: Vec<char> = Vec::new();
                crate::text::push_chars(&mut nm, chain);
                crate::text::push_str(&mut nm, "_");
                crate::text::push_str(&mut nm, node_name(k));
                crate::text::push_chars(&mut nm, suffix);
                crate::text::push_str(&mut nm, "_");
                crate::text::push_str(&mut nm, ps[i].name);
                assert(nm@ =~= input_name(chain@, k as int, suffix@, i as int));
                let vs = string_of(&v);
                let inp = GraphInput {
                    name: string_of(&nm),
                    default: Num::Lit(vs.clone()),
                    min: Num::Min(lit(ps[i].min), vs.clone()),
                    max: Num::Max(lit(ps[i].max), vs),
                };
                inputs.push(inp);
                let es = string_of(&nm);
                assert(es@ == expr_of(chain@, k as int, suffix@, a, i as int));
                exprs.push(es);
                assert(strings(exprs@) =~= oe.push(es@));
                assert(inputs_view(inputs@) =~= oi.push(inputs@.last()@));
            },
            None => {
                let mut e: Vec<char> = Vec::new();
                crate::text::push_str(&mut e, "(");
                match &args[i] {
                    Some(x) => crate::text::push_chars(&mut e, x),
                    None => {},
                }
                crate::text::push_str(&mut e, ")");
                assert(e@ =~= "("@ + a[i as int].unwrap() + ")"@);
                let es = string_of(&e);
                assert(es@ == expr_of(chain@, k as int, suffix@, a, i as int));
                exprs.push(es);
                assert(strings(exprs@) =~= oe.push(es@));
            },
        }
        i = i + 1;
        assert(strings(exprs@) =~= Seq::new(
            i as nat,
            |j: int| expr_of(chain@, k as int, suffix@, a, j),
        ));
    }
    exprs
}

proof fn lemma_segs_err(chain: Seq<char>, segs: Seq<Seq<char>>, m: nat, n: nat, ins: Seq<InputV>)
    requires
        m <= n,
        segs_run(chain, segs, m, ins) is Err,
    ensures
        segs_run(chain, segs, n, ins) == segs_run(chain, segs, m, ins),
    decreases n - m,
{
    if m < n {
        lemma_segs_err(chain, segs, m, (n - 1) as nat, ins);
    }
}

proof fn lemma_lines_err(ls: Seq<Seq<char>>, m: nat, n: nat)
    requires
        m <= n,
        lines_run(ls, m) is Err,
    ensures
        lines_run(ls, n) == lines_run(ls, m),
    decreases n - m,
{
    if m < n {
        lemma_lines_err(ls, m, (n - 1) as nat);
    }
}

/// One `|` segment: appends the node and the inputs of its literals.
fn parse_node(
    chain: &Vec<char>,
    seg: &Vec<char>,
    inputs: &mut Vec<GraphInput>,
    nodes: &mut Vec<Node>,
) -> (r: Result<(), Problem>)
    ensures
        match node_step(chain@, seg@, inputs_view(old(inputs)@), nodes_view(old(nodes)@)) {
            Ok((i2, n2)) => r is Ok && inputs_view(final(inputs)@) == i2 && nodes_view(
                final(nodes)@,
            ) == n2,
            Err(p) => r matches Err(q) && q@ == p,
        },
{
    let toks = words_of(seg);
    if toks.len() == 0 {
        return Err(Problem::EmptyNode);
    }
    let k = match node_def(&toks[0]) {
        None => {
            return Err(Problem::UnknownNode(string_of(&toks[0])));
        },
        Some(k) => k,
    };
    let ghost kk = lookup(toks@[0]@).unwrap();
    assert(kk == k);
    let args = match parse_args(k, &toks) {
        Err(p) => {
            return Err(p);
        },
        Ok((a, _)) => a,
    };
    proof {
        lemma_args_len(k as int, views(toks@).drop_first(), (toks.len() - 1) as nat);
    }
    let c: u128 = count_of(nodes, k) as u128 + 1;
    let mut suffix: Vec<char> = Vec::new();
    if c != 1 {
        push_decimal(&mut suffix, c);
    }
    assert(suffix@ =~= suffix_of(count_kind(nodes_view(nodes@), k as nat) + 1));
    let ghost on = nodes_view(nodes@);
    let exprs = node_exprs(inputs, chain, k, &suffix, &args);
    let node = Node { kind: k, args: exprs };
    nodes.push(node);
    assert(nodes_view(nodes@) =~= on.push(nodes@.last()@));
    assert(nodes@.last()@.args =~= Seq::new(
        spec_params(k as int).len(),
        |i: int| expr_of(chain@, k as int, suffix@, opt_views(args@), i),
    ));
    Ok(())
}

spec fn st_of(inputs: Seq<GraphInput>, chains: Seq<Chain>, declared: Seq<Vec<char>>) -> St {
    St { inputs: inputs_view(inputs), chains: chains_view(chains), declared: views(declared) }
}

fn is_taken(chains: &Vec<Chain>, declared: &Vec<Vec<char>>, name: &Vec<char>, Ghost(st): Ghost<St>) -> (r: bool)
    requires
        st.chains == chains_view(chains@),
        st.declared == views(declared@),
    ensures
        r == name_taken(st, name@),
{
    let mut i: usize = 0;
    while i < chains.len()
        invariant
            i <= chains.len(),
            st.chains == chains_view(chains@),
            forall|j: int| 0 <= j < i ==> st.chains[j].name != name@,
        decreases chains.len() - i,
    {
        let cn = chars_of(chains[i].name.as_str());
        if crate::text::chars_eq(&cn, name) {
            assert(st.chains[i as int].name == name@);
            return true;
        }
        i = i + 1;
    }
    let mut j: usize = 0;
    while j < declared.len()
        invariant
            j <= declared.len(),
            st.chains == chains_view(chains@),
            st.declared == views(declared@),
            forall|m: int| 0 <= m < chains.len() ==> st.chains[m].name != name@,
            forall|m: int| 0 <= m < j ==> st.declared[m] != name@,
        decreases declared.len() - j,
    {
        if crate::text::chars_eq(&declared[j], name) {
            assert(st.declared[j as int] == name@);
            return true;
        }
        j = j + 1;
    }
    assert(!st.declared.contains(name@));
    false
}

/// `name = node ... | node ...`
#[verifier::loop_isolation(false)]
fn parse_chain(
    inputs: &mut Vec<GraphInput>,
    chains: &mut Vec<Chain>,
    declared: &Vec<Vec<char>>,
    line: &Vec<char>,
) -> (r: Result<(), Problem>)
    ensures
        match chain_step(st_of(old(inputs)@, old(chains)@, declared@), line@) {
            Ok(s2) => r is Ok && st_of(final(inputs)@, final(chains)@, declared@) == s2,
            Err(p) => r matches Err(q) && q@ == p,
        },
{
    let ghost st = st_of(inputs@, chains@, declared@);
    let (lhs, body) = match split_once_char(line, '=') {
        None => {
            return Err(Problem::ExpectedChain);
        },
        Some(pair) => pair,
    };
    let name = trim_chars(&lhs);
    if !is_ident(&name) {
        return Err(Problem::BadChainName(string_of(&name)));
    }
    if is_taken(chains, declared, &name, Ghost(st)) {
        return Err(Problem::AlreadyDefined(string_of(&name)));
    }
    let segs = split_chars(&body, '|');
    let mut nodes: Vec<Node> = Vec::new();
    let mut n: usize = 0;
    assert(nodes_view(nodes@) =~= Seq::<NodeV>::empty());
    while n < segs.len()
        invariant
            n <= segs.len(),
            views(segs@) == split(body@, '|'),
            segs_run(name@, views(segs@), n as nat, st.inputs) == Ok::<_, ProblemV>(
                (inputs_view(inputs@), nodes_view(nodes@)),
            ),
        decreases segs.len() - n,
    {
        assert(views(segs@)[n as int] == segs@[n as int]@);
        match parse_node(&name, &segs[n], inputs, &mut nodes) {
            Err(p) => {
                proof {
                    lemma_segs_err(name@, views(segs@), (n + 1) as nat, segs.len() as nat, st.inputs);
                }
                return Err(p);
            },
            Ok(()) => {},
        }
        n = n + 1;
    }
    assert(split_once(line@, '=') == Some((lhs@, body@)));
    assert(trim(lhs@) == name@);
    assert(!name_taken(st, name@));
    assert(views(segs@).len() == segs.len());
    assert(segs_run(name@, split(body@, '|'), split(body@, '|').len(), st.inputs) == Ok::<_, ProblemV>(
        (inputs_view(inputs@), nodes_view(nodes@)),
    ));
    let ghost oc = chains_view(chains@);
    let ch = Chain { name: string_of(&name), nodes };
    chains.push(ch);
    assert(chains_view(chains@) =~= oc.push(chains@.last()@));
    Ok(())
}

/// Every node names a node type and carries one expression per parameter.
pub open spec fn nodes_ok(ns: Seq<NodeV>) -> bool {
    forall|n: int|
        0 <= n < ns.len() ==> (#[trigger] ns[n]).kind < NODE_COUNT && ns[n].args.len()
            == spec_params(ns[n].kind as int).len()
}

pub open spec fn chains_ok(cs: Seq<ChainV>) -> bool {
    forall|c: int| 0 <= c < cs.len() ==> nodes_ok(#[trigger] cs[c].nodes)
}

proof fn lemma_segs_ok(chain: Seq<char>, segs: Seq<Seq<char>>, n: nat, ins: Seq<InputV>)
    ensures
        segs_run(chain, segs, n, ins) matches Ok((i2, ns)) ==> nodes_ok(ns),
    decreases n,
{
    if n > 0 {
        lemma_segs_ok(chain, segs, (n - 1) as nat, ins);
        if let Ok((i2, ns)) = segs_run(chain, segs, (n - 1) as nat, ins) {
            let toks = words(segs[n - 1]);
            if toks.len() > 0 {
                crate::nodes::lemma_lookup_bound(toks[0], 0);
            }
            if let Ok((i3, ns3)) = node_step(chain, segs[n - 1], i2, ns) {
                assert forall|m: int| 0 <= m < ns3.len() implies (#[trigger] ns3[m]).kind
                    < NODE_COUNT && ns3[m].args.len() == spec_params(ns3[m].kind as int).len() by {
                    if m < ns.len() {
                        assert(ns3[m] == ns[m]);
                    }
                }
            }
        }
    }
}

proof fn lemma_lines_ok(ls: Seq<Seq<char>>, n: nat)
    ensures
        lines_run(ls, n) matches Ok(st) ==> chains_ok(st.chains),
    decreases n,
{
    if n > 0 {
        lemma_lines_ok(ls, (n - 1) as nat);
        if let Ok(st) = lines_run(ls, (n - 1) as nat) {
            let line = content(ls[n - 1]);
            if let Some((lhs, body)) = split_once(line, '=') {
                let segs = split(body, '|');
                lemma_segs_ok(trim(lhs), segs, segs.len(), st.inputs);
            }
            if let Ok(s2) = line_step(st, ls[n - 1], n) {
                assert forall|c: int| 0 <= c < s2.chains.len() implies nodes_ok(
                    #[trigger] s2.chains[c].nodes,
                ) by {
                    if c < st.chains.len() {
                        assert(s2.chains[c] == st.chains[c]);
                    }
                }
            }
        }
    }
}

/// A parsed graph is well formed: every node names a node type and has one
/// GLSL expression per parameter of that type.
pub proof fn lemma_parsed_well_formed(src: Seq<char>)
    ensures
        graph_of(src) matches Ok(g) ==> chains_ok(g.chains),
{
    lemma_lines_ok(lines(src), lines(src).len());
}

/// Parses a graph source into its inputs and chains.
pub fn parse_graph(src: &str) -> (r: Result<Graph, GraphError>)
    ensures
        match graph_of(src@) {
            Ok(g) => r matches Ok(x) && x@ == g && chains_ok(g.chains),
            Err(e) => r matches Err(x) && x@ == e,
        },
{
    proof {
        lemma_parsed_well_formed(src@);
    }
    let chars = chars_of(src);
    let ls = lines_of(&chars);
    let ghost lv = views(ls@);
    let mut inputs: Vec<GraphInput> = Vec::new();
    let mut chains: Vec<Chain> = Vec::new();
    let mut declared: Vec<Vec<char>> = Vec::new();
    let mut i: usize = 0;
    assert(inputs_view(inputs@) =~= Seq::<InputV>::empty());
    assert(chains_view(chains@) =~= Seq::<ChainV>::empty());
    assert(views(declared@) =~= Seq::<Seq<char>>::empty());
    while i < ls.len()
        invariant
            i <= ls.len(),
            lv == views(ls@),
            lv == lines(src@),
            lines_run(lv, i as nat) == Ok::<_, ErrV>(st_of(inputs@, chains@, declared@)),
        decreases ls.len() - i,
    {
        let raw = &ls[i];
        let h = crate::text::find_char(raw, '#');
        proof {
            crate::text::lemma_find_bounds(raw@, '#');
        }
        let pre = crate::text::copy_range(raw, 0, h);
        assert(pre@ =~= before(raw@, '#'));
        let line = trim_chars(&pre);
        let ghost st = st_of(inputs@, chains@, declared@);
        let res: Result<(), Problem> = if line.len() == 0 {
            Ok(())
        } else if line.len() >= 3 && line[0] == 'i' && line[1] == 'n' && line[2] == ' ' {
            assert(line@.take(3) =~= "in "@) by {
                reveal_strlit("in ");
            }
            let rest = crate::text::copy_range(&line, 3, line.len());
            assert(rest@ =~= line@.skip(3));
            parse_decl(&mut inputs, &mut declared, &rest, Ghost(st))
        } else {
            proof {
                reveal_strlit("in ");
                if line@.len() >= 3 && line@.take(3) == "in "@ {
                    assert(line@.take(3)[0] == 'i');
                    assert(line@.take(3)[1] == 'n');
                    assert(line@.take(3)[2] == ' ');
                }
            }
            parse_chain(&mut inputs, &mut chains, &declared, &line)
        };
        match res {
            Err(p) => {
                proof {
                    lemma_lines_err(lv, (i + 1) as nat, ls.len() as nat);
                }
                return Err(GraphError::At { line: i + 1, raw: string_of(raw), problem: p });
            },
            Ok(()) => {},
        }
        i = i + 1;
    }
    if chains.len() == 0 {
        return Err(GraphError::NoChains);
    }
    Ok(Graph { inputs, chains })
}


// ---------------------------------------------------------------- messages
/// The node names, in table order, separated by spaces.
pub open spec fn known_nodes() -> Seq<char> {
    joined(Seq::new(NODE_COUNT as nat, |k: int| spec_node_name(k)), " "@)
}

/// What is said of a problem.
pub open spec fn problem_text(p: ProblemV) -> Seq<char> {
    match p {
        ProblemV::ExpectedInput => "expected: in NAME DEFAULT [MIN MAX]"@,
        ProblemV::BadNumber(v) => "bad number "@ + debug_quoted(v),
        ProblemV::ExpectedChain => "expected `name = node ... | node ...` or `in NAME ...`"@,
        ProblemV::BadChainName(n) => "bad chain name "@ + debug_quoted(n),
        ProblemV::AlreadyDefined(n) => debug_quoted(n) + " already defined"@,
        ProblemV::EmptyNode => "empty node"@,
        ProblemV::UnknownNode(n) => "unknown node "@ + debug_quoted(n) + "; known: "@ + known_nodes(),
        ProblemV::NoParameter(n, k) => n + " has no parameter "@ + debug_quoted(k),
        ProblemV::TooManyArgs(n, c) => n + " takes "@ + decimal(c) + " arguments"@,
    }
}

/// The message of a graph error: the line number, what is wrong, and the
/// line as written on the next line, indented.
pub open spec fn graph_message(e: ErrV) -> Seq<char> {
    match e {
        ErrV::NoChains => "no chains defined"@,
        ErrV::At { line, raw, problem } => "line "@ + decimal(line) + ": "@ + problem_text(problem)
            + "\n    "@ + raw,
    }
}

fn push_known_nodes(out: &mut Vec<char>)
    ensures
        final(out)@ == old(out)@ + known_nodes(),
{
    let ghost items = Seq::new(NODE_COUNT as nat, |k: int| spec_node_name(k));
    let ghost start = out@;
    push_str(out, node_name(0));
    assert(items.take(1).drop_last() =~= Seq::<Seq<char>>::empty());
    assert(out@ == start + joined(items.take(1), " "@));
    let mut k: usize = 1;
    while k < NODE_COUNT
        invariant
            1 <= k <= NODE_COUNT,
            items == Seq::new(NODE_COUNT as nat, |k: int| spec_node_name(k)),
            out@ == start + joined(items.take(k as int), " "@),
        decreases NODE_COUNT - k,
    {
        push_str(out, " ");
        push_str(out, node_name(k));
        assert(items.take(k + 1).drop_last() =~= items.take(k as int));
        k = k + 1;
        assert(out@ =~= start + joined(items.take(k as int), " "@));
    }
    assert(items.take(NODE_COUNT as int) =~= items);
}

fn push_quoted(out: &mut Vec<char>, s: &String)
    ensures
        final(out)@ == old(out)@ + debug_quoted(s@),
{
    let q = quoted(s.as_str());
    push_str(out, q.as_str());
}

impl GraphError {
    /// The message reported for this error.
    pub fn message(&self) -> (r: String)
        ensures
            r@ == graph_message(self@),
    {
        let mut out: Vec<char> = Vec::new();
        match self {
            GraphError::NoChains => push_str(&mut out, "no chains defined"),
            GraphError::At { line, raw, problem } => {
                push_str(&mut out, "line ");
                push_decimal(&mut out, *line as u128);
                push_str(&mut out, ": ");
                match problem {
                    Problem::ExpectedInput => push_str(&mut out, "expected: in NAME DEFAULT [MIN MAX]"),
                    Problem::BadNumber(v) => {
                        push_str(&mut out, "bad number ");
                        push_quoted(&mut out, v);
                    },
                    Problem::ExpectedChain => push_str(
                        &mut out,
                        "expected `name = node ... | node ...` or `in NAME ...`",
                    ),
                    Problem::BadChainName(n) => {
                        push_str(&mut out, "bad chain name ");
                        push_quoted(&mut out, n);
                    },
                    Problem::AlreadyDefined(n) => {
                        push_quoted(&mut out, n);
                        push_str(&mut out, " already defined");
                    },
                    Problem::EmptyNode => push_str(&mut out, "empty node"),
                    Problem::UnknownNode(n) => {
                        push_str(&mut out, "unknown node ");
                        push_quoted(&mut out, n);
                        push_str(&mut out, "; known: ");
                        push_known_nodes(&mut out);
                    },
                    Problem::NoParameter(n, k) => {
                        push_str(&mut out, n.as_str());
                        push_str(&mut out, " has no parameter ");
                        push_quoted(&mut out, k);
                    },
                    Problem::TooManyArgs(n, c) => {
                        push_str(&mut out, n.as_str());
                        push_str(&mut out, " takes ");
                        push_decimal(&mut out, *c as u128);
                        push_str(&mut out, " arguments");
                    },
                }
                push_str(&mut out, "\n    ");
                push_str(&mut out, raw.as_str());
            },
        }
        let r = string_of(&out);
        assert(r@ =~= graph_message(self@));
        r
    }
}


/// Every node that `node_help` lists is accepted on its own, all parameters
/// defaulted, and any other name is an unknown node: a segment that is a
/// single name `n` passes iff `n` names one of the table's node types.
pub proof fn lemma_listed_nodes_accepted(
    chain: Seq<char>,
    seg: Seq<char>,
    ins: Seq<InputV>,
    nodes: Seq<NodeV>,
    n: Seq<char>,
)
    requires
        words(seg) == seq![n],
    ensures
        (node_step(chain, seg, ins, nodes) is Ok) <==> (exists|k: int|
            0 <= k < NODE_COUNT && spec_node_name(k) == n),
        !(node_step(chain, seg, ins, nodes) is Ok) ==> node_step(chain, seg, ins, nodes)
            == Err::<(Seq<InputV>, Seq<NodeV>), ProblemV>(ProblemV::UnknownNode(n)),
{
    crate::nodes::lemma_lookup_iff_listed(n);
    assert(words(seg).drop_first().len() == 0);
}


// ---------------------------------------------------------------- comments
/// The contents of the lines that say something, in order: each line's text
/// before `#`, trimmed, leaving out the empty ones.
pub open spec fn contents(ls: Seq<Seq<char>>) -> Seq<Seq<char>>
    decreases ls.len(),
{
    if ls.len() == 0 {
        Seq::empty()
    } else if content(ls.last()).len() == 0 {
        contents(ls.drop_last())
    } else {
        contents(ls.drop_last()).push(content(ls.last()))
    }
}

/// One non-empty line content.
pub open spec fn content_step(st: St, line: Seq<char>) -> Result<St, ProblemV> {
    if line.len() >= 3 && line.take(3) == "in "@ {
        decl_step(st, line.skip(3))
    } else {
        chain_step(st, line)
    }
}

/// The state after a sequence of line contents.
pub open spec fn contents_run(cs: Seq<Seq<char>>) -> Result<St, ProblemV>
    decreases cs.len(),
{
    if cs.len() == 0 {
        Ok(St { inputs: Seq::empty(), chains: Seq::empty(), declared: Seq::empty() })
    } else {
        match contents_run(cs.drop_last()) {
            Err(p) => Err(p),
            Ok(st) => content_step(st, cs.last()),
        }
    }
}

proof fn lemma_lines_contents(ls: Seq<Seq<char>>, n: nat)
    requires
        n <= ls.len(),
    ensures
        match lines_run(ls, n) {
            Ok(st) => contents_run(contents(ls.take(n as int))) == Ok::<St, ProblemV>(st),
            Err(_) => contents_run(contents(ls.take(n as int))) is Err,
        },
    decreases n,
{
    if n > 0 {
        lemma_lines_contents(ls, (n - 1) as nat);
        let t = ls.take(n as int);
        assert(t.drop_last() =~= ls.take(n - 1));
        assert(t.last() == ls[n - 1]);
        let c = contents(ls.take(n - 1));
        if content(ls[n - 1]).len() != 0 {
            assert(contents(t).drop_last() =~= c);
        }
    } else {
        assert(ls.take(0) =~= Seq::<Seq<char>>::empty());
    }
}

/// Comments and blank lines never change a compiled graph: two sources
/// whose lines say the same things (the text before `#`, trimmed, of the
/// lines where it is not empty) either both compile, to the same graph, or
/// both fail. Appending `# ...` to a line, or inserting blank or comment
/// lines, keeps what the lines say.
pub proof fn lemma_comments_ignored(src: Seq<char>, src2: Seq<char>)
    requires
        contents(lines(src)) == contents(lines(src2)),
    ensures
        (graph_of(src) is Ok) <==> (graph_of(src2) is Ok),
        graph_of(src) is Ok ==> graph_of(src2) == graph_of(src),
{
    let ls = lines(src);
    let ls2 = lines(src2);
    lemma_lines_contents(ls, ls.len());
    lemma_lines_contents(ls2, ls2.len());
    assert(ls.take(ls.len() as int) =~= ls);
    assert(ls2.take(ls2.len() as int) =~= ls2);
}

/// What a line says ignores a comment appended to it.
pub proof fn lemma_comment_suffix(line: Seq<char>, comment: Seq<char>)
    requires
        comment.len() > 0,
        comment[0] == '#',
    ensures
        content(line + comment) == content(line),
{
    let s = line + comment;
    crate::text::lemma_find_bounds(line, '#');
    crate::text::lemma_find_bounds(s, '#');
    if line.contains('#') {
        let i = choose|i: int| 0 <= i < line.len() && line[i] == '#';
        assert(s[i] == '#');
        assert(find(line, '#') <= i);
        assert(forall|j: int| 0 <= j < find(line, '#') ==> s[j] == line[j]);
        crate::text::lemma_find(s, '#', find(line, '#') as int);
        assert(s.take(find(s, '#') as int) =~= line.take(find(line, '#') as int));
    } else {
        assert(find(line, '#') == line.len()) by {
            if find(line, '#') < line.len() {
                assert(line[find(line, '#') as int] == '#');
            }
        }
        assert(s[line.len() as int] == '#');
        crate::text::lemma_find(s, '#', line.len() as int);
        assert(s.take(line.len() as int) =~= line);
        assert(line.take(line.len() as int) =~= line);
    }
}


/// A blank or comment-only line inserted anywhere says nothing.
pub proof fn lemma_quiet_line(ls: Seq<Seq<char>>, i: int, q: Seq<char>)
    requires
        0 <= i <= ls.len(),
        content(q).len() == 0,
    ensures
        contents(ls.insert(i, q)) == contents(ls),
    decreases ls.len(),
{
    let l2 = ls.insert(i, q);
    if i == ls.len() {
        assert(l2.drop_last() =~= ls);
    } else {
        lemma_quiet_line(ls.drop_last(), i, q);
        assert(l2.drop_last() =~= ls.drop_last().insert(i, q));
        assert(l2.last() == ls.last());
    }
}


/// A line replaced by one that says the same (as with a comment appended)
/// leaves what the lines say unchanged.
pub proof fn lemma_same_content_line(ls: Seq<Seq<char>>, i: int, l: Seq<char>)
    requires
        0 <= i < ls.len(),
        content(l) == content(ls[i]),
    ensures
        contents(ls.update(i, l)) == contents(ls),
    decreases ls.len(),
{
    let l2 = ls.update(i, l);
    if i == ls.len() - 1 {
        assert(l2.drop_last() =~= ls.drop_last());
    } else {
        lemma_same_content_line(ls.drop_last(), i, l);
        assert(l2.drop_last() =~= ls.drop_last().update(i, l));
    }
}


// ---------------------------------------------------------------- one-node sources
proof fn lemma_split_without(s: Seq<char>, c: char)
    requires
        !s.contains(c),
    ensures
        split(s, c) == seq![s],
    decreases s.len(),
{
    if s.len() > 0 {
        assert(!s.drop_last().contains(c)) by {
            if s.drop_last().contains(c) {
                let i = choose|i: int| 0 <= i < s.drop_last().len() && s.drop_last()[i] == c;
                assert(s[i] == c);
            }
        }
        lemma_split_without(s.drop_last(), c);
        assert(s.last() != c) by {
            assert(s[s.len() - 1] == s.last());
        }
        assert(s.drop_last().push(s.last()) =~= s);
        assert(seq![s.drop_last()].update(0, s.drop_last().push(s.last())) =~= seq![s]);
    } else {
        assert(s =~= Seq::<char>::empty());
    }
}

proof fn lemma_words_of_spaced(n: Seq<char>, k: int)
    requires
        0 <= k <= n.len(),
        forall|i: int| 0 <= i < n.len() ==> !is_ws(#[trigger] n[i]),
    ensures
        crate::text::split_ws(seq![' '] + n.take(k)) == seq![Seq::<char>::empty(), n.take(k)],
    decreases k,
{
    let t = seq![' '] + n.take(k);
    if k == 0 {
        assert(t.drop_last() =~= Seq::<char>::empty());
        assert(n.take(0) =~= Seq::<char>::empty());
        assert(t.last() == ' ');
        assert(is_ws(' '));
        assert(crate::text::split_ws(Seq::<char>::empty()) == seq![Seq::<char>::empty()]);
        assert(seq![Seq::<char>::empty()].push(Seq::<char>::empty()) =~= seq![
            Seq::<char>::empty(),
            n.take(0),
        ]);
    } else {
        lemma_words_of_spaced(n, k - 1);
        assert(t.drop_last() =~= seq![' '] + n.take(k - 1));
        assert(t.last() == n[k - 1]);
        assert(!is_ws(n[k - 1]));
        assert(n.take(k - 1).push(n[k - 1]) =~= n.take(k));
        let p = seq![Seq::<char>::empty(), n.take(k - 1)];
        assert(p.update(1, p.last().push(n[k - 1])) =~= seq![Seq::<char>::empty(), n.take(k)]);
    }
}

/// An identifier's characters: none is whitespace, `#`, `|`, `=` or a line
/// break.
proof fn lemma_ident_chars(n: Seq<char>, i: int)
    requires
        spec_is_ident(n),
        0 <= i < n.len(),
    ensures
        !is_ws(n[i]),
        n[i] != '#',
        n[i] != '|',
        n[i] != '=',
        n[i] != '\n',
{
}

/// `node_help` lists exactly the nodes a graph accepts: the one-line source
/// `a = NAME`, for an identifier `NAME`, compiles (every parameter
/// defaulted) iff `NAME` is one of the table's node types, which
/// `node_help` prints in table order; any other identifier is an unknown
/// node on line 1.
pub proof fn lemma_one_node_source(n: Seq<char>)
    requires
        spec_is_ident(n),
    ensures
        (graph_of(seq!['a', ' ', '=', ' '] + n) is Ok) <==> (exists|k: int|
            0 <= k < NODE_COUNT && spec_node_name(k) == n),
        !(graph_of(seq!['a', ' ', '=', ' '] + n) is Ok) ==> graph_of(seq!['a', ' ', '=', ' '] + n)
            == Err::<GraphV, ErrV>(
            ErrV::At {
                line: 1,
                raw: seq!['a', ' ', '=', ' '] + n,
                problem: ProblemV::UnknownNode(n),
            },
        ),
{
    let src = seq!['a', ' ', '=', ' '] + n;
    assert forall|i: int| 0 <= i < n.len() implies !is_ws(#[trigger] n[i]) by {
        lemma_ident_chars(n, i);
    }
    // one line
    assert(!src.contains('\n')) by {
        if src.contains('\n') {
            let i = choose|i: int| 0 <= i < src.len() && src[i] == '\n';
            if i >= 4 {
                lemma_ident_chars(n, i - 4);
            }
        }
    }
    lemma_split_without(src, '\n');
    assert(lines(src) =~= seq![src]);
    // no comment, nothing to trim
    assert(!src.contains('#')) by {
        if src.contains('#') {
            let i = choose|i: int| 0 <= i < src.len() && src[i] == '#';
            if i >= 4 {
                lemma_ident_chars(n, i - 4);
            }
        }
    }
    crate::text::lemma_find_bounds(src, '#');
    assert(find(src, '#') == src.len()) by {
        if find(src, '#') < src.len() {
            assert(src[find(src, '#') as int] == '#');
        }
    }
    assert(before(src, '#') =~= src);
    lemma_ident_chars(n, n.len() - 1);
    assert(src.last() == n.last());
    assert(trim(src) == src);
    assert(content(src) == src);
    assert(src.take(3) != "in "@) by {
        reveal_strlit("in ");
        assert(src.take(3)[0] != "in "@[0]);
    }
    // the chain line
    crate::text::lemma_find(src, '=', 2);
    let lhs = src.take(2);
    let body = src.skip(3);
    assert(lhs =~= seq!['a', ' ']);
    assert(body =~= seq![' '] + n);
    assert(lhs.drop_last() =~= seq!['a']);
    assert(seq!['a'].drop_last() =~= Seq::<char>::empty());
    assert(!is_ws('a') && is_ws(' '));
    assert(crate::text::trim_end(seq!['a']) == seq!['a']);
    assert(crate::text::trim_end(lhs) == seq!['a']);
    assert(crate::text::trim_start(lhs) == lhs);
    assert(trim_check(lhs));
    assert(!body.contains('|')) by {
        if body.contains('|') {
            let i = choose|i: int| 0 <= i < body.len() && body[i] == '|';
            if i >= 1 {
                lemma_ident_chars(n, i - 1);
            }
        }
    }
    lemma_split_without(body, '|');
    lemma_words_of_spaced(n, n.len() as int);
    assert(n.take(n.len() as int) =~= n);
    assert(words(body) =~= seq![n]) by {
        assert(body == seq![' '] + n.take(n.len() as int));
        assert(crate::text::split_ws(body) == seq![Seq::<char>::empty(), n]);
        let e = Seq::<char>::empty();
        let p1 = seq![e];
        let p2 = seq![e, n];
        assert(p2.drop_last() =~= p1);
        assert(p1.drop_last() =~= Seq::<Seq<char>>::empty());
        assert(p2.last() == n && n.len() > 0);
        assert(p1.last().len() == 0);
        assert(crate::text::non_empty(Seq::<Seq<char>>::empty()) == Seq::<Seq<char>>::empty());
        assert(crate::text::non_empty(p1) == Seq::<Seq<char>>::empty());
        assert(crate::text::non_empty(p2) == crate::text::non_empty(p1).push(n));
        assert(Seq::<Seq<char>>::empty().push(n) =~= seq![n]);
    }
    let st0 = St { inputs: Seq::empty(), chains: Seq::empty(), declared: Seq::empty() };
    lemma_listed_nodes_accepted(seq!['a'], body, st0.inputs, Seq::empty(), n);
    assert(lines_run(seq![src], 0) == Ok::<St, ErrV>(st0));
    assert(split_once(src, '=') == Some((lhs, body)));
    assert(!name_taken(st0, seq!['a'])) by {
        assert(!st0.declared.contains(seq!['a']));
    }
    assert(split(body, '|') == seq![body]);
    let ns = node_step(seq!['a'], body, Seq::empty(), Seq::empty());
    assert(segs_run(seq!['a'], seq![body], 0, Seq::empty()) == Ok::<(Seq<InputV>, Seq<NodeV>), ProblemV>(
        (Seq::empty(), Seq::empty()),
    ));
    assert(segs_run(seq!['a'], seq![body], 1, Seq::empty()) == ns);
    let line_r = line_step(st0, src, 1);
    assert(lines_run(seq![src], 1) == line_r);
    match ns {
        Ok((ins, nodes)) => {
            assert(chain_step(st0, src) is Ok);
            assert(chain_step(st0, src)->Ok_0.chains.len() == 1);
            assert(line_r is Ok);
        },
        Err(p) => {
            assert(chain_step(st0, src) == Err::<St, ProblemV>(p));
            assert(line_r == Err::<St, ErrV>(ErrV::At { line: 1, raw: src, problem: p }));
        },
    }
}

spec fn trim_check(lhs: Seq<char>) -> bool {
    &&& trim(lhs) == seq!['a']
    &&& spec_is_ident(seq!['a'])
}

} // verus!
