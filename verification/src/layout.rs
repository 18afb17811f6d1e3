//! Uniform block layout shared between the GLSL prelude and the CPU side.
//!
//! std140 and WGSL uniform rules agree for these types: scalars align 4, vec2
//! align 8, vec4 align 16. The builtins come first; the inputs follow,
//! largest alignment first, so the layout is dense and identical on both
//! sides.
use vstd::prelude::*;
use crate::text::{chars_of, push_str, string_of};
use crate::isf::{Isf, InputKind, InputV, input_views};

verus! {

/// The type of a member of the uniform block.
#[derive(Debug, Clone, Copy, PartialEq, Eq, Structural)]
pub enum SlotKind {
    F32,
    I32,
    Vec2,
    Vec4,
}

pub open spec fn spec_size(k: SlotKind) -> nat {
    match k {
        SlotKind::F32 | SlotKind::I32 => 4,
        SlotKind::Vec2 => 8,
        SlotKind::Vec4 => 16,
    }
}

impl SlotKind {
    /// Size in bytes.
    pub fn size(self) -> (r: usize)
        ensures
            r == spec_size(self),
    {
        match self {
            SlotKind::F32 | SlotKind::I32 => 4,
            SlotKind::Vec2 => 8,
            SlotKind::Vec4 => 16,
        }
    }

    /// Alignment in bytes: the size.
    pub fn align(self) -> (r: usize)
        ensures
            r == spec_size(self),
    {
        self.size()
    }

    /// The GLSL type name.
    pub fn glsl(self) -> (r: &'static str)
        ensures
            r@ == glsl_type(self),
    {
        match self {
            SlotKind::F32 => "float",
            SlotKind::I32 => "int",
            SlotKind::Vec2 => "vec2",
            SlotKind::Vec4 => "vec4",
        }
    }
}

pub open spec fn glsl_type(k: SlotKind) -> Seq<char> {
    match k {
        SlotKind::F32 => "float"@,
        SlotKind::I32 => "int"@,
        SlotKind::Vec2 => "vec2"@,
        SlotKind::Vec4 => "vec4"@,
    }
}

/// One member of the generated uniform block.
#[derive(Debug, Clone)]
pub struct Slot {
    /// Name as addressed from outside (the ISF input NAME, or a builtin).
    pub name: String,
    /// Name of the member inside the GLSL block.
    pub member: String,
    pub kind: SlotKind,
    pub offset: usize,
}

pub struct SlotV {
    pub name: Seq<char>,
    pub member: Seq<char>,
    pub kind: SlotKind,
    pub offset: nat,
}

impl View for Slot {
    type V = SlotV;

    open spec fn view(&self) -> SlotV {
        SlotV { name: self.name@, member: self.member@, kind: self.kind, offset: self.offset as nat }
    }
}

/// The members in block order, and the block's size in bytes.
#[derive(Debug, Clone)]
pub struct Layout {
    pub slots: Vec<Slot>,
    pub size: usize,
}

pub open spec fn slot_views(v: Seq<Slot>) -> Seq<SlotV> {
    v.map_values(|s: Slot| s@)
}

/// An entry to place: name, member, kind.
pub type Entry = (Seq<char>, Seq<char>, SlotKind);

/// The builtin uniforms, in block order.
pub open spec fn builtins() -> Seq<Entry> {
    seq![
        ("RENDERSIZE"@, "RENDERSIZE"@, SlotKind::Vec2),
        ("TIME"@, "TIME"@, SlotKind::F32),
        ("TIMEDELTA"@, "TIMEDELTA"@, SlotKind::F32),
        ("FRAMEINDEX"@, "FRAMEINDEX"@, SlotKind::I32),
        ("PASSINDEX"@, "PASSINDEX"@, SlotKind::I32),
        ("DATE"@, "DATE"@, SlotKind::Vec4),
    ]
}

/// The member and type an input gets; images get none. Booleans and events
/// are ints under a `_vlfo_i` member.
pub open spec fn input_entry(i: InputV) -> Option<Entry> {
    match i.kind {
        InputKind::Color { .. } => Some((i.name, i.name, SlotKind::Vec4)),
        InputKind::Point2D { .. } => Some((i.name, i.name, SlotKind::Vec2)),
        InputKind::Float { .. } => Some((i.name, i.name, SlotKind::F32)),
        InputKind::Long { .. } => Some((i.name, i.name, SlotKind::I32)),
        InputKind::Bool { .. } | InputKind::Event => Some(
            (i.name, i.name + "_vlfo_i"@, SlotKind::I32),
        ),
        InputKind::Image => None,
    }
}

/// Which pass places a kind: vec4, then vec2, then scalars.
pub open spec fn bucket(k: SlotKind) -> SlotKind {
    match k {
        SlotKind::Vec4 => SlotKind::Vec4,
        SlotKind::Vec2 => SlotKind::Vec2,
        _ => SlotKind::F32,
    }
}

/// The entries of `ins` that pass `pass` places, in input order.
pub open spec fn pass_entries(ins: Seq<InputV>, pass: SlotKind) -> Seq<Entry>
    decreases ins.len(),
{
    if ins.len() == 0 {
        Seq::empty()
    } else {
        let prev = pass_entries(ins.drop_last(), pass);
        match input_entry(ins.last()) {
            Some(e) => if bucket(e.2) == pass {
                prev.push(e)
            } else {
                prev
            },
            None => prev,
        }
    }
}

/// All entries in block order.
pub open spec fn entries(ins: Seq<InputV>) -> Seq<Entry> {
    builtins() + pass_entries(ins, SlotKind::Vec4) + pass_entries(ins, SlotKind::Vec2)
        + pass_entries(ins, SlotKind::F32)
}

/// `x` rounded up to a multiple of `a`.
pub open spec fn align_up(x: nat, a: nat) -> nat {
    (((x + a - 1) as int) / (a as int) * (a as int)) as nat
}

/// The first `n` entries placed one after another, each at the next offset
/// aligned for it; with the end of the last one.
pub open spec fn place(es: Seq<Entry>, n: nat) -> (Seq<SlotV>, nat)
    decreases n,
{
    if n == 0 {
        (Seq::empty(), 0)
    } else {
        let (ss, end) = place(es, (n - 1) as nat);
        let e = es[n - 1];
        let off = align_up(end, spec_size(e.2));
        (ss.push(SlotV { name: e.0, member: e.1, kind: e.2, offset: off }), off + spec_size(e.2))
    }
}

/// The layout of an ISF file's inputs: the placed entries, and the block
/// size, the end rounded up to 16 bytes and at least 16.
pub open spec fn layout_of(ins: Seq<InputV>) -> (Seq<SlotV>, nat) {
    let es = entries(ins);
    let (ss, end) = place(es, es.len());
    let size = align_up(end, 16);
    (ss, if size > 16 {
        size
    } else {
        16
    })
}

fn align_up_exec(x: usize, a: usize) -> (r: usize)
    requires
        a == 4 || a == 8 || a == 16,
        x + a - 1 <= usize::MAX,
    ensures
        r == align_up(x as nat, a as nat),
        x <= r < x + a,
        r % a == 0,
{
    let t = x + (a - 1);
    let q = t / a;
    assert(q * a <= t) by (nonlinear_arith)
        requires
            a > 0,
            q == t / a,
    ;
    q * a
}

fn entry_of(i: &crate::isf::Input) -> (r: Option<(Vec<char>, Vec<char>, SlotKind)>)
    ensures
        match input_entry(i@) {
            Some(e) => r matches Some((n, m, k)) && n@ == e.0 && m@ == e.1 && k == e.2,
            None => r is None,
        },
{
    let n = chars_of(i.name.as_str());
    match i.kind {
        InputKind::Color { .. } => Some((n.clone(), n, SlotKind::Vec4)),
        InputKind::Point2D { .. } => Some((n.clone(), n, SlotKind::Vec2)),
        InputKind::Float { .. } => Some((n.clone(), n, SlotKind::F32)),
        InputKind::Long { .. } => Some((n.clone(), n, SlotKind::I32)),
        InputKind::Bool { .. } | InputKind::Event => {
            let mut m = n.clone();
            push_str(&mut m, "_vlfo_i");
            Some((n, m, SlotKind::I32))
        },
        InputKind::Image => None,
    }
}

fn push_slot(
    slots: &mut Vec<Slot>,
    end: &mut usize,
    name: &Vec<char>,
    member: &Vec<char>,
    kind: SlotKind,
    Ghost(es): Ghost<Seq<Entry>>,
    Ghost(n): Ghost<nat>,
)
    requires
        n < es.len(),
        es[n as int] == (name@, member@, kind),
        place(es, n) == (slot_views(old(slots)@), *old(end) as nat),
        *old(end) + 32 <= usize::MAX,
    ensures
        place(es, n + 1) == (slot_views(final(slots)@), *final(end) as nat),
        *final(end) <= *old(end) + 32,
{
    let off = align_up_exec(*end, kind.align());
    let ghost old_s = slot_views(slots@);
    slots.push(Slot { name: string_of(name), member: string_of(member), kind, offset: off });
    *end = off + kind.size();
    assert(slot_views(slots@) =~= old_s.push(slots@.last()@));
}

/// The uniform block layout of an ISF file. Each member takes at most 32
/// bytes with the padding before it, so the byte offsets of the block fit in
/// a `usize` for every list of inputs that memory can hold; that is the bound
/// required here.
pub fn layout(isf: &Isf) -> (r: Layout)
    requires
        32 * isf.inputs.len() + 208 <= usize::MAX,
    ensures
        (slot_views(r.slots@), r.size as nat) == layout_of(input_views(isf.inputs@)),
{
    let ghost ins = input_views(isf.inputs@);
    let ghost es = entries(ins);
    let mut slots: Vec<Slot> = Vec::new();
    let mut end: usize = 0;
    let names = [
        ("RENDERSIZE", SlotKind::Vec2),
        ("TIME", SlotKind::F32),
        ("TIMEDELTA", SlotKind::F32),
        ("FRAMEINDEX", SlotKind::I32),
        ("PASSINDEX", SlotKind::I32),
        ("DATE", SlotKind::Vec4),
    ];
    assert(slot_views(slots@) =~= Seq::<SlotV>::empty());
    let mut b: usize = 0;
    while b < 6
        invariant
            b <= 6,
            es == entries(ins),
            ins == input_views(isf.inputs@),
            names@.map_values(|p: (&str, SlotKind)| (p.0@, p.0@, p.1)) == builtins(),
            place(es, b as nat) == (slot_views(slots@), end as nat),
            end <= 32 * b,
        decreases 6 - b,
    {
        let n = chars_of(names[b].0);
        assert(es[b as int] == builtins()[b as int]);
        push_slot(&mut slots, &mut end, &n, &n, names[b].1, Ghost(es), Ghost(b as nat));
        b = b + 1;
    }
    let passes = [SlotKind::Vec4, SlotKind::Vec2, SlotKind::F32];
    let mut pi: usize = 0;
    let ghost mut placed: nat = 6;
    proof {
        lemma_total_entries(ins);
    }
    while pi < 3
        invariant
            pi <= 3,
            es == entries(ins),
            ins == input_views(isf.inputs@),
            32 * isf.inputs.len() + 208 <= usize::MAX,
            placed <= 6 + total_entries(ins),
            total_entries(ins) <= ins.len(),
            passes@ == seq![SlotKind::Vec4, SlotKind::Vec2, SlotKind::F32],
            placed == 6 + (if pi >= 1 { pass_entries(ins, SlotKind::Vec4).len() } else { 0 }) + (
            if pi >= 2 { pass_entries(ins, SlotKind::Vec2).len() } else { 0 }) + (if pi >= 3 {
                pass_entries(ins, SlotKind::F32).len()
            } else {
                0
            }),
            place(es, placed) == (slot_views(slots@), end as nat),
            end <= 32 * placed,
        decreases 3 - pi,
    {
        let pass = passes[pi];
        let ghost base = placed;
        let mut k: usize = 0;
        while k < isf.inputs.len()
            invariant
                k <= isf.inputs.len(),
                32 * isf.inputs.len() + 208 <= usize::MAX,
                total_entries(ins) <= ins.len(),
                pi < 3,
                es == entries(ins),
                ins == input_views(isf.inputs@),
                passes@ == seq![SlotKind::Vec4, SlotKind::Vec2, SlotKind::F32],
                pass == passes@[pi as int],
                base == 6 + (if pi >= 1 { pass_entries(ins, SlotKind::Vec4).len() } else { 0 }) + (
                if pi >= 2 { pass_entries(ins, SlotKind::Vec2).len() } else { 0 }),
                placed == base + pass_entries(ins.take(k as int), pass).len(),
                pass_entries(ins.take(k as int), pass).len() <= k,
                place(es, placed) == (slot_views(slots@), end as nat),
                end <= 32 * placed,
            decreases isf.inputs.len() - k,
        {
            assert(ins.take(k + 1).drop_last() =~= ins.take(k as int));
            assert(ins.take(k + 1).last() == ins[k as int]);
            match entry_of(&isf.inputs[k]) {
                Some((n, m, kind)) => {
                    if (match kind {
                        SlotKind::Vec4 => SlotKind::Vec4,
                        SlotKind::Vec2 => SlotKind::Vec2,
                        _ => SlotKind::F32,
                    }) == pass {
                        proof {
                            lemma_entries_index(ins, pi as nat, k as nat);
                            lemma_pass_prefix(ins, pass, (k + 1) as nat);
                        }
                        push_slot(&mut slots, &mut end, &n, &m, kind, Ghost(es), Ghost(placed));
                        proof {
                            placed = placed + 1;
                        }
                    }
                },
                None => {},
            }
            k = k + 1;
        }
        assert(ins.take(isf.inputs.len() as int) =~= ins);
        pi = pi + 1;
    }
    assert(placed == es.len());
    let size0 = align_up_exec(end, 16);
    let size = if size0 > 16 {
        size0
    } else {
        16
    };
    Layout { slots, size }
}

proof fn lemma_align_up(x: nat, a: nat)
    requires
        a == 4 || a == 8 || a == 16,
    ensures
        x <= align_up(x, a) < x + a,
        align_up(x, a) % a == 0,
{
}

/// Placed slots keep the entries' names and kinds, each is aligned for its
/// kind, each ends before the next begins, and all end by the end.
pub proof fn lemma_place(es: Seq<Entry>, n: nat)
    requires
        n <= es.len(),
    ensures
        ({
            let (ss, end) = place(es, n);
            &&& ss.len() == n
            &&& forall|i: int|
                0 <= i < n ==> (#[trigger] ss[i]).name == es[i].0 && ss[i].member == es[i].1
                    && ss[i].kind == es[i].2
            &&& forall|i: int|
                0 <= i < n ==> (#[trigger] ss[i]).offset % spec_size(ss[i].kind) == 0
                    && ss[i].offset + spec_size(ss[i].kind) <= end
            &&& forall|i: int, j: int|
                0 <= i < j < n ==> (#[trigger] ss[i]).offset + spec_size(ss[i].kind) <= (
                #[trigger] ss[j]).offset
        }),
    decreases n,
{
    if n > 0 {
        lemma_place(es, (n - 1) as nat);
        let (ss, end) = place(es, (n - 1) as nat);
        let e = es[n - 1];
        lemma_align_up(end, spec_size(e.2));
    }
}

/// The layout law: every member is aligned for its type, no two members
/// overlap, all lie inside the block, and the block size is a positive
/// multiple of 16 bytes.
pub proof fn lemma_layout_sound(ins: Seq<InputV>)
    ensures
        ({
            let (ss, size) = layout_of(ins);
            &&& size >= 16
            &&& size % 16 == 0
            &&& forall|i: int|
                0 <= i < ss.len() ==> (#[trigger] ss[i]).offset % spec_size(ss[i].kind) == 0
                    && ss[i].offset + spec_size(ss[i].kind) <= size
            &&& forall|i: int, j: int|
                0 <= i < j < ss.len() ==> (#[trigger] ss[i]).offset + spec_size(ss[i].kind) <= (
                #[trigger] ss[j]).offset
        }),
{
    let es = entries(ins);
    lemma_place(es, es.len());
    let (ss, end) = place(es, es.len());
    lemma_align_up(end, 16);
}

proof fn lemma_pass_len(ins: Seq<InputV>, pass: SlotKind)
    ensures
        pass_entries(ins, pass).len() <= ins.len(),
    decreases ins.len(),
{
    if ins.len() > 0 {
        lemma_pass_len(ins.drop_last(), pass);
    }
}

/// The entry that input `k` adds in pass `pi`, when it is placed there,
/// stands at the next index of `entries`.
proof fn lemma_entries_index(ins: Seq<InputV>, pi: nat, k: nat)
    requires
        pi < 3,
        k < ins.len(),
    ensures
        ({
            let pass = seq![SlotKind::Vec4, SlotKind::Vec2, SlotKind::F32][pi as int];
            let base = 6 + (if pi >= 1 { pass_entries(ins, SlotKind::Vec4).len() } else { 0 }) + (
            if pi >= 2 { pass_entries(ins, SlotKind::Vec2).len() } else { 0 });
            match input_entry(ins[k as int]) {
                Some(e) => bucket(e.2) == pass ==> {
                    let at = base + pass_entries(ins.take(k as int), pass).len();
                    &&& at < entries(ins).len()
                    &&& entries(ins)[at as int] == e
                },
                None => true,
            }
        }),
{
    let pass = seq![SlotKind::Vec4, SlotKind::Vec2, SlotKind::F32][pi as int];
    lemma_pass_prefix(ins, pass, (k + 1) as nat);
    lemma_pass_len(ins, SlotKind::Vec4);
    lemma_pass_len(ins, SlotKind::Vec2);
    lemma_pass_len(ins, SlotKind::F32);
}

/// The entries of a prefix are a prefix of the entries, and the prefix ending
/// with a placed input ends with its entry.
proof fn lemma_pass_prefix(ins: Seq<InputV>, pass: SlotKind, n: nat)
    requires
        n <= ins.len(),
    ensures
        pass_entries(ins.take(n as int), pass).len() <= pass_entries(ins, pass).len(),
        forall|j: int|
            0 <= j < pass_entries(ins.take(n as int), pass).len() ==> pass_entries(ins, pass)[j]
                == pass_entries(ins.take(n as int), pass)[j],
        n > 0 ==> match input_entry(ins[n - 1]) {
            Some(e) => bucket(e.2) == pass ==> pass_entries(ins.take(n as int), pass)
                == pass_entries(ins.take(n - 1), pass).push(e),
            None => true,
        },
    decreases ins.len() - n,
{
    if n < ins.len() {
        lemma_pass_prefix(ins.drop_last(), pass, n);
        assert(ins.drop_last().take(n as int) =~= ins.take(n as int));
        if n > 0 {
            assert(ins.drop_last().take(n - 1) =~= ins.take(n - 1));
            assert(ins.drop_last()[n - 1] == ins[n - 1]);
        }
    } else {
        assert(ins.take(n as int) =~= ins);
        if n > 0 {
            assert(ins.drop_last() =~= ins.take(n - 1));
        }
    }
}


proof fn lemma_align_exact(x: nat, a: nat)
    requires
        a == 4 || a == 8 || a == 16,
        x % a == 0,
    ensures
        align_up(x, a) == x,
{
    if a == 4 {
        assert((((x + 4 - 1) as int) / 4int * 4int) as nat == x) by (nonlinear_arith)
            requires
                x % 4 == 0,
        ;
    } else if a == 8 {
        assert((((x + 8 - 1) as int) / 8int * 8int) as nat == x) by (nonlinear_arith)
            requires
                x % 8 == 0,
        ;
    } else {
        assert((((x + 16 - 1) as int) / 16int * 16int) as nat == x) by (nonlinear_arith)
            requires
                x % 16 == 0,
        ;
    }
}

proof fn lemma_pass_kinds(ins: Seq<InputV>, pass: SlotKind)
    ensures
        forall|j: int|
            0 <= j < pass_entries(ins, pass).len() ==> bucket(
                (#[trigger] pass_entries(ins, pass)[j]).2,
            ) == pass,
    decreases ins.len(),
{
    if ins.len() > 0 {
        lemma_pass_kinds(ins.drop_last(), pass);
    }
}

/// The builtins end at byte 48.
proof fn lemma_builtins_end(es: Seq<Entry>)
    requires
        es.len() >= 6,
        es.take(6) == builtins(),
    ensures
        place(es, 6).1 == 48,
        place(es, 6).0.len() == 6,
        place(es, 6).0[5].offset == 32,
        place(es, 6).0[5].kind == SlotKind::Vec4,
{
    assert(es[0] == es.take(6)[0] && es[1] == es.take(6)[1] && es[2] == es.take(6)[2]);
    assert(es[3] == es.take(6)[3] && es[4] == es.take(6)[4] && es[5] == es.take(6)[5]);
    assert(spec_size(SlotKind::Vec2) == 8 && spec_size(SlotKind::F32) == 4);
    assert(spec_size(SlotKind::I32) == 4 && spec_size(SlotKind::Vec4) == 16);
    assert(align_up(0, 8) == 0 && align_up(8, 4) == 8 && align_up(12, 4) == 12);
    assert(align_up(16, 4) == 16 && align_up(20, 4) == 20 && align_up(24, 16) == 32);
    assert(place(es, 0).1 == 0);
    assert(place(es, 0).0.len() == 0);
    assert(place(es, 1).1 == 8);
    assert(place(es, 2).1 == 12);
    assert(place(es, 3).1 == 16);
    assert(place(es, 4).1 == 20);
    assert(place(es, 5).1 == 24);
    assert(place(es, 5).0.len() == 5);
    assert(place(es, 6).1 == 48);
}

/// The entry kinds of a layout: builtins, then vec4 up to `a`, vec2 up to
/// `b`, scalars after.
#[verifier::opaque]
pub open spec fn sorted_kinds(es: Seq<Entry>, a: nat, b: nat) -> bool {
    &&& 6 <= a <= b <= es.len()
    &&& es.take(6) == builtins()
    &&& forall|j: int| 6 <= j < a ==> (#[trigger] es[j]).2 == SlotKind::Vec4
    &&& forall|j: int| a <= j < b ==> (#[trigger] es[j]).2 == SlotKind::Vec2
    &&& forall|j: int|
        b <= j < es.len() ==> (#[trigger] es[j]).2 == SlotKind::F32 || es[j].2 == SlotKind::I32
}

proof fn lemma_dense_ends(es: Seq<Entry>, n: nat, a: nat, b: nat)
    requires
        6 <= n <= es.len(),
        sorted_kinds(es, a, b),
    ensures
        place(es, n).0.len() == n,
        n <= a ==> place(es, n).1 % 16 == 0,
        n <= b ==> place(es, n).1 % 8 == 0,
        place(es, n).1 % 4 == 0,
    decreases n,
{
    reveal(sorted_kinds);
    if n == 6 {
        lemma_builtins_end(es);
    } else {
        lemma_dense_ends(es, (n - 1) as nat, a, b);
        let end = place(es, (n - 1) as nat).1;
        let k = es[n - 1].2;
        if n - 1 < a {
            lemma_align_exact(end, 16);
        } else if n - 1 < b {
            lemma_align_exact(end, 8);
        } else {
            lemma_align_exact(end, 4);
        }
    }
}

/// Where entry `n` is placed: right at the end of the entries before it.
proof fn lemma_dense_step(es: Seq<Entry>, n: nat, a: nat, b: nat)
    requires
        6 <= n < es.len(),
        sorted_kinds(es, a, b),
    ensures
        place(es, n + 1).0[n as int].offset == place(es, n).1,
{
    reveal(sorted_kinds);
    lemma_dense_ends(es, n, a, b);
    let end = place(es, n).1;
    if n < a {
        lemma_align_exact(end, 16);
    } else if n < b {
        lemma_align_exact(end, 8);
    } else {
        lemma_align_exact(end, 4);
    }
}

#[verifier::spinoff_prover]
#[verifier::rlimit(40)]
proof fn lemma_dense_place(es: Seq<Entry>, n: nat, a: nat, b: nat)
    requires
        6 <= n <= es.len(),
        sorted_kinds(es, a, b),
    ensures
        place(es, n).0.len() == n,
        place(es, n).0[5].offset == 32,
        place(es, n).0[5].kind == SlotKind::Vec4,
        forall|i: int|
            6 <= i < n ==> (#[trigger] place(es, n).0[i]).offset == place(es, n).0[i - 1].offset
                + spec_size(place(es, n).0[i - 1].kind),
    decreases n,
{
    if n == 6 {
        reveal(sorted_kinds);
        lemma_builtins_end(es);
    } else {
        let m = (n - 1) as nat;
        lemma_dense_place(es, m, a, b);
        lemma_dense_step(es, m, a, b);
        let ss = place(es, m).0;
        let ss2 = place(es, n).0;
        assert(ss2 == ss.push(ss2[m as int]));
        assert(ss2[5] == ss[5]);
        assert(place(es, m).1 == ss[m - 1].offset + spec_size(ss[m - 1].kind)) by {
            assert(place(es, m).0 == place(es, (m - 1) as nat).0.push(ss[m - 1]));
        }
        assert forall|i: int| 6 <= i < n implies (#[trigger] ss2[i]).offset == ss2[i - 1].offset
            + spec_size(ss2[i - 1].kind) by {
            if i < m {
                assert(ss2[i] == ss[i] && ss2[i - 1] == ss[i - 1]);
            } else {
                assert(ss2[i - 1] == ss[m - 1]);
            }
        }
    }
}

proof fn lemma_entries_sorted(ins: Seq<InputV>)
    ensures
        sorted_kinds(
            entries(ins),
            6 + pass_entries(ins, SlotKind::Vec4).len(),
            6 + pass_entries(ins, SlotKind::Vec4).len() + pass_entries(ins, SlotKind::Vec2).len(),
        ),
{
    reveal(sorted_kinds);
    let p4 = pass_entries(ins, SlotKind::Vec4);
    let p2 = pass_entries(ins, SlotKind::Vec2);
    let pf = pass_entries(ins, SlotKind::F32);
    let es = entries(ins);
    let a = 6 + p4.len();
    let b = a + p2.len();
    let x = builtins() + p4;
    let y = x + p2;
    assert(es == y + pf);
    assert(es.take(6) =~= builtins());
    lemma_pass_kinds(ins, SlotKind::Vec4);
    lemma_pass_kinds(ins, SlotKind::Vec2);
    lemma_pass_kinds(ins, SlotKind::F32);
    assert forall|j: int| 6 <= j < a implies (#[trigger] es[j]).2 == SlotKind::Vec4 by {
        assert(es[j] == y[j]);
        assert(y[j] == x[j]);
        assert(x[j] == p4[j - 6]);
        assert(bucket(p4[j - 6].2) == SlotKind::Vec4);
    }
    assert forall|j: int| a <= j < b implies (#[trigger] es[j]).2 == SlotKind::Vec2 by {
        assert(es[j] == y[j]);
        assert(y[j] == p2[j - a]);
        assert(bucket(p2[j - a].2) == SlotKind::Vec2);
    }
    assert forall|j: int| b <= j < es.len() implies (#[trigger] es[j]).2 == SlotKind::F32 || es[j].2
        == SlotKind::I32 by {
        assert(es[j] == pf[j - b]);
        assert(bucket(pf[j - b].2) == SlotKind::F32);
    }
}

/// The layout is dense: after the builtins, which end at byte 48, every
/// input member starts exactly where the one before it ends (members are
/// placed largest first, so no padding is ever needed).
#[verifier::spinoff_prover]
#[verifier::rlimit(40)]
pub proof fn lemma_inputs_dense(ins: Seq<InputV>)
    ensures
        layout_of(ins).0.len() >= 6,
        layout_of(ins).0.len() > 6 ==> layout_of(ins).0[6].offset == 48,
        forall|i: int|
            6 < i < layout_of(ins).0.len() ==> (#[trigger] layout_of(ins).0[i]).offset == layout_of(
                ins,
            ).0[i - 1].offset + spec_size(layout_of(ins).0[i - 1].kind),
{
    let es = entries(ins);
    let ss = place(es, es.len()).0;
    assert(layout_of(ins).0 == ss);
    lemma_entries_sorted(ins);
    let a = 6 + pass_entries(ins, SlotKind::Vec4).len();
    let b = a + pass_entries(ins, SlotKind::Vec2).len();
    lemma_dense_place(es, es.len(), a, b);
    if ss.len() > 6 {
        assert(ss[6].offset == ss[5].offset + spec_size(ss[5].kind));
    }
}


/// Every input but an image gets a member of the block, under its own name.
pub proof fn lemma_every_input_placed(ins: Seq<InputV>, k: int)
    requires
        0 <= k < ins.len(),
        ins[k].kind != InputKind::Image,
    ensures
        exists|j: int|
            0 <= j < layout_of(ins).0.len() && (#[trigger] layout_of(ins).0[j]).name == ins[k].name,
{
    let e = input_entry(ins[k]).unwrap();
    let pi: nat = if e.2 == SlotKind::Vec4 {
        0
    } else if e.2 == SlotKind::Vec2 {
        1
    } else {
        2
    };
    lemma_entries_index(ins, pi, k as nat);
    let es = entries(ins);
    let base = 6 + (if pi >= 1 { pass_entries(ins, SlotKind::Vec4).len() } else { 0 }) + (if pi
        >= 2 { pass_entries(ins, SlotKind::Vec2).len() } else { 0 });
    let pass = seq![SlotKind::Vec4, SlotKind::Vec2, SlotKind::F32][pi as int];
    let at = base + pass_entries(ins.take(k), pass).len();
    assert(es[at as int] == e);
    lemma_place(es, es.len());
    let ss = layout_of(ins).0;
    assert(ss == place(es, es.len()).0);
    assert(ss[at as int].name == es[at as int].0);
}


/// Every entry a pass places is the entry of one of the inputs.
proof fn lemma_pass_from_inputs(ins: Seq<InputV>, pass: SlotKind, j: int)
    requires
        0 <= j < pass_entries(ins, pass).len(),
    ensures
        exists|m: int|
            0 <= m < ins.len() && #[trigger] input_entry(ins[m]) == Some(
                pass_entries(ins, pass)[j],
            ),
    decreases ins.len(),
{
    let prev = pass_entries(ins.drop_last(), pass);
    if j < prev.len() {
        lemma_pass_from_inputs(ins.drop_last(), pass, j);
        let m = choose|m: int|
            0 <= m < ins.drop_last().len() && #[trigger] input_entry(ins.drop_last()[m]) == Some(
                prev[j],
            );
        assert(ins.drop_last()[m] == ins[m]);
        assert(input_entry(ins[m]) == Some(pass_entries(ins, pass)[j]));
    } else {
        let m = ins.len() - 1;
        assert(input_entry(ins[m]) == Some(pass_entries(ins, pass)[j]));
    }
}

/// When no two inputs share a name, each input but an image has a member
/// under its name after the builtins, and every member after the builtins
/// under that name has the type the input's kind gets.
pub proof fn lemma_input_member(ins: Seq<InputV>, k: int)
    requires
        0 <= k < ins.len(),
        ins[k].kind != InputKind::Image,
        forall|a: int, b: int|
            0 <= a < b < ins.len() ==> (#[trigger] ins[a]).name != (#[trigger] ins[b]).name,
    ensures
        exists|at: int|
            6 <= at < layout_of(ins).0.len() && (#[trigger] layout_of(ins).0[at]).name
                == ins[k].name,
        forall|j: int|
            6 <= j < layout_of(ins).0.len() && (#[trigger] layout_of(ins).0[j]).name
                == ins[k].name ==> layout_of(ins).0[j].kind == (input_entry(ins[k])->0).2,
{
    let e = input_entry(ins[k]).unwrap();
    let pi: nat = if e.2 == SlotKind::Vec4 {
        0
    } else if e.2 == SlotKind::Vec2 {
        1
    } else {
        2
    };
    lemma_entries_index(ins, pi, k as nat);
    let es = entries(ins);
    let p4 = pass_entries(ins, SlotKind::Vec4);
    let p2 = pass_entries(ins, SlotKind::Vec2);
    let pf = pass_entries(ins, SlotKind::F32);
    let base = 6 + (if pi >= 1 { p4.len() } else { 0 }) + (if pi >= 2 { p2.len() } else { 0 });
    let pass = seq![SlotKind::Vec4, SlotKind::Vec2, SlotKind::F32][pi as int];
    let at = base + pass_entries(ins.take(k), pass).len();
    assert(es[at as int] == e);
    lemma_place(es, es.len());
    let ss = layout_of(ins).0;
    assert(ss == place(es, es.len()).0);
    assert(ss[at as int].name == es[at as int].0);
    assert forall|j: int|
        6 <= j < ss.len() && (#[trigger] ss[j]).name == ins[k].name implies ss[j].kind == e.2 by {
        let x = builtins() + p4;
        let y = x + p2;
        assert(es == y + pf);
        let (q, jj): (SlotKind, int) = if j < 6 + p4.len() {
            assert(es[j] == p4[j - 6]);
            (SlotKind::Vec4, j - 6)
        } else if j < 6 + p4.len() + p2.len() {
            assert(es[j] == p2[j - 6 - p4.len()]);
            (SlotKind::Vec2, j - 6 - p4.len())
        } else {
            assert(es[j] == pf[j - 6 - p4.len() - p2.len()]);
            (SlotKind::F32, j - 6 - p4.len() - p2.len())
        };
        assert(es[j] == pass_entries(ins, q)[jj]);
        lemma_pass_from_inputs(ins, q, jj);
        let m = choose|m: int|
            0 <= m < ins.len() && #[trigger] input_entry(ins[m]) == Some(pass_entries(ins, q)[jj]);
        assert(ins[m].name == ins[k].name);
        if m != k {
            if m < k {
                assert(ins[m].name != ins[k].name);
            } else {
                assert(ins[k].name != ins[m].name);
            }
        }
    }
}

/// How many members the inputs get: one per input but images.
pub open spec fn total_entries(ins: Seq<InputV>) -> nat {
    pass_entries(ins, SlotKind::Vec4).len() + pass_entries(ins, SlotKind::Vec2).len()
        + pass_entries(ins, SlotKind::F32).len()
}

proof fn lemma_total_entries(ins: Seq<InputV>)
    ensures
        total_entries(ins) <= ins.len(),
    decreases ins.len(),
{
    if ins.len() > 0 {
        lemma_total_entries(ins.drop_last());
    }
}

} // verus!
