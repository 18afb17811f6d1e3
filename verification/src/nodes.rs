//! The node vocabulary of `.vlfo` graphs: names, kinds and parameters with
//! their default, minimum and maximum, each number kept as the text that the
//! renderer prints for it.
use vstd::prelude::*;
use crate::text::{chars_of, eq_str, push_chars, push_str, string_of};

verus! {

/// What a node does to the chain it stands in.
#[derive(Clone, Copy, PartialEq, Eq, Structural, Debug)]
pub enum Kind {
    /// Sets the signed distance.
    Shape,
    /// Moves the sample point.
    Transform,
    /// Sets colour, alpha or coverage.
    Paint,
}

/// Number of node types.
pub const NODE_COUNT: usize = 19;

pub open spec fn spec_node_name(k: int) -> Seq<char> {
    if k == 0 {
        "rect"@
    } else if k == 1 {
        "square"@
    } else if k == 2 {
        "circle"@
    } else if k == 3 {
        "ring"@
    } else if k == 4 {
        "line"@
    } else if k == 5 {
        "fill"@
    } else if k == 6 {
        "translate"@
    } else if k == 7 {
        "rotate"@
    } else if k == 8 {
        "scale"@
    } else if k == 9 {
        "grid"@
    } else if k == 10 {
        "repeat"@
    } else if k == 11 {
        "mirror"@
    } else if k == 12 {
        "color"@
    } else if k == 13 {
        "gray"@
    } else if k == 14 {
        "hsv"@
    } else if k == 15 {
        "alpha"@
    } else if k == 16 {
        "soften"@
    } else if k == 17 {
        "outline"@
    } else {
        "invert"@
    }
}

/// The name of node type `k`.
pub fn node_name(k: usize) -> (r: &'static str)
    requires
        k < NODE_COUNT,
    ensures
        r@ == spec_node_name(k as int),
{
    if k == 0 {
        "rect"
    } else if k == 1 {
        "square"
    } else if k == 2 {
        "circle"
    } else if k == 3 {
        "ring"
    } else if k == 4 {
        "line"
    } else if k == 5 {
        "fill"
    } else if k == 6 {
        "translate"
    } else if k == 7 {
        "rotate"
    } else if k == 8 {
        "scale"
    } else if k == 9 {
        "grid"
    } else if k == 10 {
        "repeat"
    } else if k == 11 {
        "mirror"
    } else if k == 12 {
        "color"
    } else if k == 13 {
        "gray"
    } else if k == 14 {
        "hsv"
    } else if k == 15 {
        "alpha"
    } else if k == 16 {
        "soften"
    } else if k == 17 {
        "outline"
    } else {
        "invert"
    }
}

pub open spec fn spec_node_kind(k: int) -> Kind {
    if k <= 5 {
        Kind::Shape
    } else if k <= 11 {
        Kind::Transform
    } else {
        Kind::Paint
    }
}

/// The kind of node type `k`.
pub fn node_kind(k: usize) -> (r: Kind)
    requires
        k < NODE_COUNT,
    ensures
        r == spec_node_kind(k as int),
{
    if k <= 5 {
        Kind::Shape
    } else if k <= 11 {
        Kind::Transform
    } else {
        Kind::Paint
    }
}

/// One parameter of a node type: name, default, minimum, maximum.
pub struct ParamDef {
    pub name: &'static str,
    pub default: &'static str,
    pub min: &'static str,
    pub max: &'static str,
}

/// A parameter as values: name, default, minimum, maximum.
pub type ParamV = (Seq<char>, Seq<char>, Seq<char>, Seq<char>);

pub open spec fn pv(n: &str, d: &str, lo: &str, hi: &str) -> ParamV {
    (n@, d@, lo@, hi@)
}

pub open spec fn spec_params(k: int) -> Seq<ParamV> {
    if k == 0 {
        seq![pv("w", "1", "0", "8"), pv("h", "1", "0", "8")]
    } else if k == 1 {
        seq![pv("s", "1", "0", "8")]
    } else if k == 2 {
        seq![pv("r", "1", "0", "8")]
    } else if k == 3 {
        seq![pv("r", "1", "0", "8"), pv("t", "0.1", "0", "2")]
    } else if k == 4 {
        seq![pv("x", "1", "-8", "8"), pv("y", "0", "-8", "8"), pv("t", "0.05", "0", "2")]
    } else if k == 5 {
        seq![]
    } else if k == 6 {
        seq![pv("x", "0", "-8", "8"), pv("y", "0", "-8", "8")]
    } else if k == 7 {
        seq![pv("deg", "0", "-360", "360")]
    } else if k == 8 {
        seq![pv("s", "1", "0", "8")]
    } else if k == 9 {
        seq![
            pv("cols", "1", "1", "64"),
            pv("rows", "1", "1", "64"),
            pv("sx", "1", "0", "8"),
            pv("sy", "1", "0", "8"),
        ]
    } else if k == 10 {
        seq![pv("sx", "1", "0", "8"), pv("sy", "1", "0", "8")]
    } else if k == 11 {
        seq![]
    } else if k == 12 {
        seq![pv("r", "1", "0", "1"), pv("g", "1", "0", "1"), pv("b", "1", "0", "1")]
    } else if k == 13 {
        seq![pv("v", "1", "0", "1")]
    } else if k == 14 {
        seq![pv("h", "0", "0", "1"), pv("s", "1", "0", "1"), pv("v", "1", "0", "1")]
    } else if k == 15 {
        seq![pv("a", "1", "0", "1")]
    } else if k == 16 {
        seq![pv("s", "0.1", "0", "4")]
    } else if k == 17 {
        seq![pv("t", "0.05", "0", "2")]
    } else {
        seq![]
    }
}

pub open spec fn param_view(p: ParamDef) -> ParamV {
    (p.name@, p.default@, p.min@, p.max@)
}

fn pd(name: &'static str, default: &'static str, min: &'static str, max: &'static str) -> (r:
    ParamDef)
    ensures
        param_view(r) == pv(name, default, min, max),
{
    ParamDef { name, default, min, max }
}

/// The parameters of node type `k`, in positional order.
pub fn node_params(k: usize) -> (r: Vec<ParamDef>)
    requires
        k < NODE_COUNT,
    ensures
        r@.map_values(|p: ParamDef| param_view(p)) == spec_params(k as int),
{
    let r = if k == 0 {
        vec![pd("w", "1", "0", "8"), pd("h", "1", "0", "8")]
    } else if k == 1 {
        vec![pd("s", "1", "0", "8")]
    } else if k == 2 {
        vec![pd("r", "1", "0", "8")]
    } else if k == 3 {
        vec![pd("r", "1", "0", "8"), pd("t", "0.1", "0", "2")]
    } else if k == 4 {
        vec![pd("x", "1", "-8", "8"), pd("y", "0", "-8", "8"), pd("t", "0.05", "0", "2")]
    } else if k == 5 {
        vec![]
    } else if k == 6 {
        vec![pd("x", "0", "-8", "8"), pd("y", "0", "-8", "8")]
    } else if k == 7 {
        vec![pd("deg", "0", "-360", "360")]
    } else if k == 8 {
        vec![pd("s", "1", "0", "8")]
    } else if k == 9 {
        vec![
            pd("cols", "1", "1", "64"),
            pd("rows", "1", "1", "64"),
            pd("sx", "1", "0", "8"),
            pd("sy", "1", "0", "8"),
        ]
    } else if k == 10 {
        vec![pd("sx", "1", "0", "8"), pd("sy", "1", "0", "8")]
    } else if k == 11 {
        vec![]
    } else if k == 12 {
        vec![pd("r", "1", "0", "1"), pd("g", "1", "0", "1"), pd("b", "1", "0", "1")]
    } else if k == 13 {
        vec![pd("v", "1", "0", "1")]
    } else if k == 14 {
        vec![pd("h", "0", "0", "1"), pd("s", "1", "0", "1"), pd("v", "1", "0", "1")]
    } else if k == 15 {
        vec![pd("a", "1", "0", "1")]
    } else if k == 16 {
        vec![pd("s", "0.1", "0", "4")]
    } else if k == 17 {
        vec![pd("t", "0.05", "0", "2")]
    } else {
        vec![]
    };
    assert(r@.map_values(|p: ParamDef| param_view(p)) =~= spec_params(k as int));
    r
}

// ---------------------------------------------------------------- lookup
/// The first node type at or after `k` named `name`.
pub open spec fn lookup_from(name: Seq<char>, k: nat) -> Option<nat>
    decreases 19 - k,
{
    if k >= 19 {
        None
    } else if spec_node_name(k as int) == name {
        Some(k)
    } else {
        lookup_from(name, k + 1)
    }
}

/// The node type named `name`.
pub open spec fn lookup(name: Seq<char>) -> Option<nat> {
    lookup_from(name, 0)
}

pub proof fn lemma_lookup_bound(name: Seq<char>, k: nat)
    ensures
        lookup_from(name, k) matches Some(j) ==> j < 19,
    decreases 19 - k,
{
    if k < 19 {
        lemma_lookup_bound(name, k + 1);
    }
}

/// `node_def`: the node type named `name`.
pub fn node_def(name: &Vec<char>) -> (r: Option<usize>)
    ensures
        match lookup(name@) {
            Some(k) => r == Some(k as usize) && k < NODE_COUNT,
            None => r is None,
        },
{
    let mut k: usize = 0;
    proof {
        lemma_lookup_bound(name@, 0);
    }
    while k < NODE_COUNT
        invariant
            k <= NODE_COUNT,
            lookup(name@) == lookup_from(name@, k as nat),
        decreases NODE_COUNT - k,
    {
        if eq_str(name, node_name(k)) {
            return Some(k);
        }
        k = k + 1;
    }
    None
}

/// The first parameter at or after `i` of `ps` named `key`.
pub open spec fn param_from(ps: Seq<ParamV>, key: Seq<char>, i: nat) -> Option<nat>
    decreases ps.len() - i,
{
    if i >= ps.len() {
        None
    } else if ps[i as int].0 == key {
        Some(i)
    } else {
        param_from(ps, key, i + 1)
    }
}

pub open spec fn param_index(k: int, key: Seq<char>) -> Option<nat> {
    param_from(spec_params(k), key, 0)
}

pub proof fn lemma_param_bound(ps: Seq<ParamV>, key: Seq<char>, i: nat)
    ensures
        param_from(ps, key, i) matches Some(j) ==> j < ps.len(),
    decreases ps.len() - i,
{
    if i < ps.len() {
        lemma_param_bound(ps, key, i + 1);
    }
}

/// Position of the parameter of node type `k` named `key`.
pub fn find_param(k: usize, key: &Vec<char>) -> (r: Option<usize>)
    requires
        k < NODE_COUNT,
    ensures
        match param_index(k as int, key@) {
            Some(i) => r == Some(i as usize) && i < spec_params(k as int).len(),
            None => r is None,
        },
{
    let ps = node_params(k);
    let ghost sp = spec_params(k as int);
    proof {
        lemma_param_bound(sp, key@, 0);
    }
    let mut i: usize = 0;
    while i < ps.len()
        invariant
            i <= ps.len() == sp.len(),
            sp == spec_params(k as int),
            ps@.map_values(|p: ParamDef| param_view(p)) == sp,
            param_index(k as int, key@) == param_from(sp, key@, i as nat),
        decreases ps.len() - i,
    {
        assert(param_view(ps@[i as int]) == sp[i as int]);
        if eq_str(key, ps[i].name) {
            assert(sp[i as int].0 == key@);
            assert(param_from(sp, key@, i as nat) == Some(i as nat));
            return Some(i);
        }
        i = i + 1;
    }
    None
}

// ---------------------------------------------------------------- help text
/// `format!("{:<w}", s)`: `s` padded with spaces to `w` characters.
pub open spec fn pad(s: Seq<char>, w: nat) -> Seq<char> {
    if s.len() >= w {
        s
    } else {
        s + Seq::new((w - s.len()) as nat, |i: int| ' ')
    }
}

pub fn push_padded(out: &mut Vec<char>, s: &str, w: usize)
    ensures
        final(out)@ == old(out)@ + pad(s@, w as nat),
{
    let v = chars_of(s);
    push_chars(out, &v);
    let mut n = v.len();
    while n < w
        invariant
            v.len() <= n <= w || (v.len() >= w && n == v.len()),
            v@ == s@,
            out@ == old(out)@ + s@ + Seq::new((n - v.len()) as nat, |i: int| ' '),
        decreases w - n,
    {
        out.push(' ');
        n = n + 1;
        assert(out@ =~= old(out)@ + s@ + Seq::new((n - v.len()) as nat, |i: int| ' '));
    }
    assert(out@ =~= old(out)@ + pad(s@, w as nat));
}

pub open spec fn kind_word(k: Kind) -> Seq<char> {
    match k {
        Kind::Shape => "shape"@,
        Kind::Transform => "transform"@,
        Kind::Paint => "paint"@,
    }
}

/// `p=d` for each parameter, separated by single spaces.
pub open spec fn param_list(ps: Seq<ParamV>) -> Seq<char>
    decreases ps.len(),
{
    if ps.len() == 0 {
        Seq::empty()
    } else if ps.len() == 1 {
        ps[0].0 + "="@ + ps[0].1
    } else {
        param_list(ps.drop_last()) + " "@ + ps.last().0 + "="@ + ps.last().1
    }
}

/// The help line of node type `k`.
pub open spec fn help_line(k: int) -> Seq<char> {
    pad(spec_node_name(k), 10) + " "@ + pad(kind_word(spec_node_kind(k)), 10) + " "@ + param_list(
        spec_params(k),
    ) + "\n"@
}

/// The help lines of node types `0..n`.
pub open spec fn help_text(n: int) -> Seq<char>
    decreases n,
{
    if n <= 0 {
        Seq::empty()
    } else {
        help_text(n - 1) + help_line(n - 1)
    }
}

fn kind_str(k: Kind) -> (r: &'static str)
    ensures
        r@ == kind_word(k),
{
    match k {
        Kind::Shape => "shape",
        Kind::Transform => "transform",
        Kind::Paint => "paint",
    }
}

/// One line per node type: name, kind and `param=default` for each parameter.
pub fn node_help() -> (r: String)
    ensures
        r@ == help_text(NODE_COUNT as int),
{
    let mut out: Vec<char> = Vec::new();
    let mut k: usize = 0;
    while k < NODE_COUNT
        invariant
            k <= NODE_COUNT,
            out@ == help_text(k as int),
        decreases NODE_COUNT - k,
    {
        let ghost before = out@;
        push_padded(&mut out, node_name(k), 10);
        push_str(&mut out, " ");
        push_padded(&mut out, kind_str(node_kind(k)), 10);
        push_str(&mut out, " ");
        let ps = node_params(k);
        let ghost sp = spec_params(k as int);
        let ghost mid = out@;
        let mut i: usize = 0;
        while i < ps.len()
            invariant
                i <= ps.len() == sp.len(),
                ps@.map_values(|p: ParamDef| param_view(p)) == sp,
                out@ == mid + param_list(sp.take(i as int)),
            decreases ps.len() - i,
        {
            assert(param_view(ps@[i as int]) == sp[i as int]);
            if i > 0 {
                push_str(&mut out, " ");
            }
            push_str(&mut out, ps[i].name);
            push_str(&mut out, "=");
            push_str(&mut out, ps[i].default);
            i = i + 1;
            assert(sp.take(i as int).drop_last() =~= sp.take(i - 1));
            if i == 1 {
                assert(out@ =~= mid + param_list(sp.take(i as int)));
            } else {
                assert(out@ =~= mid + param_list(sp.take(i as int)));
            }
        }
        assert(sp.take(ps.len() as int) =~= sp);
        push_str(&mut out, "\n");
        k = k + 1;
        assert(out@ =~= help_text(k as int));
    }
    string_of(&out)
}


proof fn lemma_lookup_from_iff(name: Seq<char>, k: nat)
    requires
        k <= 19,
    ensures
        (lookup_from(name, k) is Some) <==> (exists|j: int| k <= j < 19 && spec_node_name(j) == name),
    decreases 19 - k,
{
    if k < 19 {
        lemma_lookup_from_iff(name, k + 1);
        if spec_node_name(k as int) == name {
            assert(k <= k < 19 && spec_node_name(k as int) == name);
        } else {
            if exists|j: int| k <= j < 19 && spec_node_name(j) == name {
                let j = choose|j: int| k <= j < 19 && spec_node_name(j) == name;
                assert(k + 1 <= j);
            }
        }
    }
}

/// The node types the graph language accepts by name are exactly the ones
/// `node_help` lists: a name is found iff it is the name of one of the
/// table's node types, whose help lines `node_help` prints in table order.
pub proof fn lemma_lookup_iff_listed(name: Seq<char>)
    ensures
        (lookup(name) is Some) <==> (exists|k: int| 0 <= k < 19 && spec_node_name(k) == name),
        lookup(name) matches Some(k) ==> k < 19 && spec_node_name(k as int) == name,
{
    lemma_lookup_from_iff(name, 0);
    lemma_lookup_found(name, 0);
}

proof fn lemma_lookup_found(name: Seq<char>, k: nat)
    ensures
        lookup_from(name, k) matches Some(j) ==> j < 19 && spec_node_name(j as int) == name,
    decreases 19 - k,
{
    if k < 19 {
        lemma_lookup_found(name, k + 1);
    }
}

} // verus!
