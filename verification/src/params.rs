//! CPU-side parameter store backing the ISF uniform block: the block's bytes,
//! written little-endian at the offsets of the layout, with one-shot event
//! inputs. Values arrive as `f32` bit patterns.
use vstd::prelude::*;
use crate::text::{chars_of, chars_eq};
use crate::isf::{Isf, InputKind, InputV, input_views};
use crate::layout::{Layout, Slot, SlotKind, SlotV, slot_views, spec_size, layout_of, input_entry};
use crate::floatbits::{ONE, int_to_f32, f32_of_int, round_f32_to_i32, round_to_i32, nonzero, is_nonzero};

verus! {

/// The uniform block's bytes and the bookkeeping of event inputs.
#[derive(Debug)]
pub struct Params {
    pub layout: Layout,
    pub data: Vec<u8>,
    /// Event slots set during this frame; cleared by `end_frame`.
    pub pending_events: Vec<usize>,
    /// The slots of event inputs.
    pub event_slots: Vec<usize>,
}

pub struct ParamsV {
    pub slots: Seq<SlotV>,
    pub size: nat,
    pub data: Seq<u8>,
    pub pending: Seq<usize>,
    pub events: Seq<usize>,
}

impl View for Params {
    type V = ParamsV;

    open spec fn view(&self) -> ParamsV {
        ParamsV {
            slots: slot_views(self.layout.slots@),
            size: self.layout.size as nat,
            data: self.data@,
            pending: self.pending_events@,
            events: self.event_slots@,
        }
    }
}

/// Every slot lies inside the block.
pub open spec fn slots_fit(ss: Seq<SlotV>, size: nat) -> bool {
    forall|i: int| 0 <= i < ss.len() ==> (#[trigger] ss[i]).offset + spec_size(ss[i].kind) <= size
}

/// The store is consistent: the bytes are the block, every slot lies inside
/// it, and the event bookkeeping names slots.
pub open spec fn params_wf(p: ParamsV) -> bool {
    &&& p.data.len() == p.size
    &&& slots_fit(p.slots, p.size)
    &&& forall|j: int| 0 <= j < p.pending.len() ==> (#[trigger] p.pending[j]) < p.slots.len()
    &&& forall|j: int| 0 <= j < p.events.len() ==> (#[trigger] p.events[j]) < p.slots.len()
}

impl Params {
    pub open spec fn wf(&self) -> bool {
        params_wf(self@)
    }
}

impl Params {
    /// Whether the store is consistent (`wf`): the methods that write the
    /// block need it, and every store they return keeps it.
    pub fn is_consistent(&self) -> (r: bool)
        ensures
            r == self.wf(),
    {
        if self.data.len() != self.layout.size {
            return false;
        }
        let n = self.layout.slots.len();
        assert(self@.slots.len() == n);
        let mut i: usize = 0;
        while i < n
            invariant
                i <= n == self.layout.slots.len(),
                forall|j: int| 0 <= j < i ==> (#[trigger] self@.slots[j]).offset + spec_size(
                    self@.slots[j].kind,
                ) <= self@.size,
            decreases n - i,
        {
            let s = &self.layout.slots[i];
            let sz = s.kind.size();
            assert(self@.slots[i as int] == s@);
            if s.offset > self.layout.size || sz > self.layout.size - s.offset {
                return false;
            }
            i = i + 1;
        }
        let mut k: usize = 0;
        while k < self.pending_events.len()
            invariant
                n == self@.slots.len(),
                k <= self.pending_events.len(),
                forall|j: int| 0 <= j < k ==> (#[trigger] self@.pending[j]) < self@.slots.len(),
            decreases self.pending_events.len() - k,
        {
            if self.pending_events[k] >= n {
                assert(self@.pending[k as int] >= self@.slots.len());
                return false;
            }
            k = k + 1;
        }
        let mut e: usize = 0;
        while e < self.event_slots.len()
            invariant
                n == self@.slots.len(),
                e <= self.event_slots.len(),
                forall|j: int| 0 <= j < e ==> (#[trigger] self@.events[j]) < self@.slots.len(),
            decreases self.event_slots.len() - e,
        {
            if self.event_slots[e] >= n {
                assert(self@.events[e as int] >= self@.slots.len());
                return false;
            }
            e = e + 1;
        }
        true
    }
}

// ---------------------------------------------------------------- bytes
/// Byte `j` (0 = least significant) of `w`.
pub open spec fn byte_of(w: u32, j: int) -> u8 {
    if j == 0 {
        (w % 0x100) as u8
    } else if j == 1 {
        ((w / 0x100) % 0x100) as u8
    } else if j == 2 {
        ((w / 0x1_0000) % 0x100) as u8
    } else {
        (w / 0x100_0000) as u8
    }
}

/// `d` with `w` written little-endian at `off`.
pub open spec fn write_word(d: Seq<u8>, off: int, w: u32) -> Seq<u8> {
    Seq::new(d.len(), |i: int| if off <= i < off + 4 { byte_of(w, i - off) } else { d[i] })
}

fn write_u32(data: &mut Vec<u8>, off: usize, w: u32)
    requires
        off + 4 <= old(data).len(),
    ensures
        final(data)@ == write_word(old(data)@, off as int, w),
{
    data.set(off, (w % 0x100) as u8);
    data.set(off + 1, ((w / 0x100) % 0x100) as u8);
    data.set(off + 2, ((w / 0x1_0000) % 0x100) as u8);
    data.set(off + 3, (w / 0x100_0000) as u8);
    assert(data@ =~= write_word(old(data)@, off as int, w));
}

/// `vals[0..n]` written as consecutive words from `off`.
pub open spec fn write_words(d: Seq<u8>, off: int, vals: Seq<u32>, n: int) -> Seq<u8>
    decreases n,
{
    if n <= 0 {
        d
    } else {
        write_word(write_words(d, off, vals, n - 1), off + 4 * (n - 1), vals[n - 1])
    }
}

// ---------------------------------------------------------------- lookup
/// The last slot named `name`: a later slot of the same name hides an
/// earlier one.
pub open spec fn slot_index(ss: Seq<SlotV>, name: Seq<char>) -> Option<nat>
    decreases ss.len(),
{
    if ss.len() == 0 {
        None
    } else if ss.last().name == name {
        Some((ss.len() - 1) as nat)
    } else {
        slot_index(ss.drop_last(), name)
    }
}

pub proof fn lemma_slot_index(ss: Seq<SlotV>, name: Seq<char>)
    ensures
        match slot_index(ss, name) {
            Some(i) => i < ss.len() && ss[i as int].name == name && forall|j: int|
                i < j < ss.len() ==> (#[trigger] ss[j]).name != name,
            None => forall|j: int| 0 <= j < ss.len() ==> (#[trigger] ss[j]).name != name,
        },
    decreases ss.len(),
{
    if ss.len() > 0 {
        lemma_slot_index(ss.drop_last(), name);
        if ss.last().name != name {
            assert forall|j: int| 0 <= j < ss.len() - 1 implies ss[j] == ss.drop_last()[j] by {}
        }
    }
}

fn find_slot(slots: &Vec<Slot>, name: &Vec<char>) -> (r: Option<usize>)
    ensures
        match slot_index(slot_views(slots@), name@) {
            Some(i) => r == Some(i as usize) && i < slots.len(),
            None => r is None,
        },
{
    let ghost ss = slot_views(slots@);
    let mut i = slots.len();
    assert(ss.take(i as int) =~= ss);
    proof {
        lemma_slot_index(ss, name@);
    }
    while i > 0
        invariant
            i <= slots.len(),
            ss == slot_views(slots@),
            slot_index(ss, name@) == slot_index(ss.take(i as int), name@),
            match slot_index(ss, name@) {
                Some(j) => j < ss.len(),
                None => true,
            },
        decreases i,
    {
        let n = chars_of(slots[i - 1].name.as_str());
        assert(ss.take(i as int).last() == ss[i - 1]);
        assert(ss.take(i as int).drop_last() =~= ss.take(i - 1));
        if chars_eq(&n, name) {
            return Some(i - 1);
        }
        i = i - 1;
    }
    None
}

// ---------------------------------------------------------------- setting
/// The int an int slot takes from the value `v`: an event's slot holds 1
/// for any nonzero value and 0 for zero (an event fires on a bang or any
/// nonzero value); any other int slot holds `v` rounded.
pub open spec fn int_of(v: u32, event: bool) -> u32 {
    if event {
        if nonzero(v) {
            1
        } else {
            0
        }
    } else {
        round_to_i32(v) as u32
    }
}

/// The bytes after setting slot `s` (an event's slot when `event`) from
/// `vals`: a scalar takes the first value (an int slot as `int_of` says), a
/// vec2 the first two, a vec4 the first four, with alpha 1.0 when exactly
/// three are given.
pub open spec fn set_bytes(d: Seq<u8>, s: SlotV, vals: Seq<u32>, event: bool) -> Seq<u8> {
    let off = s.offset as int;
    match s.kind {
        SlotKind::F32 => if vals.len() > 0 {
            write_word(d, off, vals[0])
        } else {
            d
        },
        SlotKind::I32 => if vals.len() > 0 {
            write_word(d, off, int_of(vals[0], event))
        } else {
            d
        },
        SlotKind::Vec2 => write_words(d, off, vals, if vals.len() < 2 { vals.len() as int } else { 2 }),
        SlotKind::Vec4 => {
            let w = write_words(d, off, vals, if vals.len() < 4 { vals.len() as int } else { 4 });
            if vals.len() == 3 {
                write_word(w, off + 12, ONE)
            } else {
                w
            }
        },
    }
}

/// `set_floats`: the store after setting `name` from `vals`, and whether a
/// slot of that name exists. An int slot of an event input with a nonzero
/// first value becomes pending.
pub open spec fn set_spec(p: ParamsV, name: Seq<char>, vals: Seq<u32>) -> (ParamsV, bool) {
    match slot_index(p.slots, name) {
        None => (p, false),
        Some(i) => {
            let s = p.slots[i as int];
            let fire = s.kind == SlotKind::I32 && vals.len() > 0 && p.events.contains(i as usize)
                && nonzero(vals[0]);
            (
                ParamsV {
                    data: set_bytes(p.data, s, vals, p.events.contains(i as usize)),
                    pending: if fire {
                        p.pending.push(i as usize)
                    } else {
                        p.pending
                    },
                    ..p
                },
                true,
            )
        },
    }
}

fn contains_index(v: &Vec<usize>, x: usize) -> (r: bool)
    ensures
        r == v@.contains(x),
{
    let mut i: usize = 0;
    while i < v.len()
        invariant
            i <= v.len(),
            forall|j: int| 0 <= j < i ==> v@[j] != x,
        decreases v.len() - i,
    {
        if v[i] == x {
            return true;
        }
        i = i + 1;
    }
    false
}

impl Params {
    /// The slot named `name` (the last one when names repeat).
    pub fn slot(&self, name: &str) -> (r: Option<&Slot>)
        ensures
            match slot_index(self@.slots, name@) {
                Some(i) => r matches Some(s) && *s == self.layout.slots@[i as int],
                None => r is None,
            },
    {
        let n = chars_of(name);
        match find_slot(&self.layout.slots, &n) {
            Some(i) => Some(&self.layout.slots[i]),
            None => None,
        }
    }

    /// Set a parameter from a list of `f32` values (as bits). Returns false
    /// if no slot has that name.
    #[verifier::loop_isolation(false)]
    pub fn set_floats(&mut self, name: &str, vals: &[u32]) -> (r: bool)
        requires
            old(self).wf(),
        ensures
            final(self).wf(),
            (final(self)@, r) == set_spec(old(self)@, name@, vals@),
            final(self).layout == old(self).layout,
    {
        let n = chars_of(name);
        let i = match find_slot(&self.layout.slots, &n) {
            None => {
                return false;
            },
            Some(i) => i,
        };
        proof {
            lemma_slot_index(self@.slots, name@);
        }
        let kind = self.layout.slots[i].kind;
        let off = self.layout.slots[i].offset;
        assert(self@.slots[i as int].offset + spec_size(self@.slots[i as int].kind) <= self@.size);
        let ghost d0 = self.data@;
        let ghost p0 = self@;
        match kind {
            SlotKind::F32 => {
                if vals.len() > 0 {
                    write_u32(&mut self.data, off, vals[0]);
                }
            },
            SlotKind::I32 => {
                if vals.len() > 0 {
                    let event = contains_index(&self.event_slots, i);
                    let fire = event && is_nonzero(vals[0]);
                    let v: u32 = if event {
                        if fire {
                            1
                        } else {
                            0
                        }
                    } else {
                        round_f32_to_i32(vals[0]) as u32
                    };
                    write_u32(&mut self.data, off, v);
                    if fire {
                        self.pending_events.push(i);
                    }
                }
            },
            SlotKind::Vec2 | SlotKind::Vec4 => {
                let count: usize = if kind == SlotKind::Vec2 {
                    2
                } else {
                    4
                };
                let m = if vals.len() < count {
                    vals.len()
                } else {
                    count
                };
                let mut k: usize = 0;
                while k < m
                    invariant
                        k <= m <= count,
                        count == spec_size(kind) / 4,
                        off + spec_size(kind) <= self.data.len(),
                        m <= vals.len(),
                        self.data@ == write_words(d0, off as int, vals@, k as int),
                        self.event_slots@ == p0.events,
                        self.pending_events@ == p0.pending,
                        slot_views(self.layout.slots@) == p0.slots,
                        self.layout.size == p0.size,
                        self.layout == old(self).layout,
                    decreases m - k,
                {
                    write_u32(&mut self.data, off + 4 * k, vals[k]);
                    k = k + 1;
                }
                if kind == SlotKind::Vec4 && vals.len() == 3 {
                    write_u32(&mut self.data, off + 12, ONE);
                }
            },
        }
        proof {
            lemma_write_words_len(d0, off as int, vals@, 0);
            lemma_write_words_len(d0, off as int, vals@, 1);
            lemma_write_words_len(d0, off as int, vals@, 2);
            lemma_write_words_len(d0, off as int, vals@, 3);
            lemma_write_words_len(d0, off as int, vals@, 4);
            let s = p0.slots[i as int];
            assert(self.data@ == set_bytes(d0, s, vals@, p0.events.contains(i as usize)));
            assert(self.data@.len() == d0.len());
            let fire = s.kind == SlotKind::I32 && vals@.len() > 0 && p0.events.contains(i as usize)
                && nonzero(vals@[0]);
            assert(self.event_slots@ == p0.events);
            assert(slot_views(self.layout.slots@) == p0.slots);
            assert(self.pending_events@ == (if fire {
                p0.pending.push(i as usize)
            } else {
                p0.pending
            }));
        }
        true
    }
}

// ---------------------------------------------------------------- construction
/// The value an input's default sets, as `f32` bits; `None` for events and
/// images, which set nothing.
pub open spec fn default_vals(k: InputKind) -> Option<Seq<u32>> {
    match k {
        InputKind::Float { default, .. } => Some(seq![default]),
        InputKind::Bool { default } => Some(seq![if default { ONE } else { 0 }]),
        InputKind::Long { default, .. } => Some(seq![f32_of_int(default as int)]),
        InputKind::Color { default } => Some(seq![default.r, default.g, default.b, default.a]),
        InputKind::Point2D { default } => Some(seq![default.x, default.y]),
        InputKind::Event | InputKind::Image => None,
    }
}

/// One input's share of construction: its default is set, or, for an event,
/// its slot is recorded.
pub open spec fn init_input(p: ParamsV, i: InputV) -> ParamsV {
    match default_vals(i.kind) {
        Some(vals) => set_spec(p, i.name, vals).0,
        None => if i.kind == InputKind::Event {
            match slot_index(p.slots, i.name) {
                Some(k) => ParamsV { events: p.events.push(k as usize), ..p },
                None => p,
            }
        } else {
            p
        },
    }
}

pub open spec fn init_run(p: ParamsV, ins: Seq<InputV>, n: nat) -> ParamsV
    decreases n,
{
    if n == 0 {
        p
    } else {
        init_input(init_run(p, ins, (n - 1) as nat), ins[n - 1])
    }
}

/// A zeroed block over `slots`, then each input's default in order.
pub open spec fn new_spec(ins: Seq<InputV>, slots: Seq<SlotV>, size: nat) -> ParamsV {
    init_run(
        ParamsV {
            slots,
            size,
            data: Seq::new(size, |i: int| 0u8),
            pending: Seq::empty(),
            events: Seq::empty(),
        },
        ins,
        ins.len(),
    )
}

proof fn lemma_init_input_wf(p: ParamsV, i: InputV)
    requires
        params_wf(p),
    ensures
        params_wf(init_input(p, i)),
        init_input(p, i).slots == p.slots,
        init_input(p, i).size == p.size,
{
    lemma_set_spec_wf(p, i.name, match default_vals(i.kind) {
        Some(v) => v,
        None => Seq::empty(),
    });
    lemma_slot_index(p.slots, i.name);
}

pub proof fn lemma_set_spec_wf(p: ParamsV, name: Seq<char>, vals: Seq<u32>)
    requires
        params_wf(p),
    ensures
        params_wf(set_spec(p, name, vals).0),
        set_spec(p, name, vals).0.slots == p.slots,
        set_spec(p, name, vals).0.size == p.size,
        set_spec(p, name, vals).0.events == p.events,
{
    lemma_slot_index(p.slots, name);
    if let Some(i) = slot_index(p.slots, name) {
        let s = p.slots[i as int];
        lemma_write_words_len(p.data, s.offset as int, vals, 0);
        lemma_write_words_len(p.data, s.offset as int, vals, 1);
        lemma_write_words_len(p.data, s.offset as int, vals, 2);
        lemma_write_words_len(p.data, s.offset as int, vals, 3);
        lemma_write_words_len(p.data, s.offset as int, vals, 4);
    }
}

fn zeros(n: usize) -> (v: Vec<u8>)
    ensures
        v@ == Seq::new(n as nat, |i: int| 0u8),
{
    let mut v: Vec<u8> = Vec::new();
    let mut i: usize = 0;
    while i < n
        invariant
            i <= n,
            v@ =~= Seq::new(i as nat, |j: int| 0u8),
        decreases n - i,
    {
        v.push(0);
        i = i + 1;
    }
    v
}

impl Params {
    /// A store for `layout`: the block zeroed, then each input's default
    /// written; event inputs are recorded as such.
    pub fn new(isf: &Isf, layout: Layout) -> (r: Params)
        requires
            slots_fit(slot_views(layout.slots@), layout.size as nat),
        ensures
            r.wf(),
            r@ == new_spec(input_views(isf.inputs@), slot_views(layout.slots@), layout.size as nat),
            r.layout == layout,
    {
        let ghost ins = input_views(isf.inputs@);
        let ghost lay = layout;
        let data = zeros(layout.size);
        let mut p = Params { data, layout, pending_events: Vec::new(), event_slots: Vec::new() };
        let ghost p0 = p@;
        assert(p@ == init_run(p0, ins, 0));
        let mut k: usize = 0;
        while k < isf.inputs.len()
            invariant
                k <= isf.inputs.len(),
                ins == input_views(isf.inputs@),
                p.wf(),
                p@ == init_run(p0, ins, k as nat),
                p.layout == lay,
            decreases isf.inputs.len() - k,
        {
            let ghost before = p@;
            let inp = &isf.inputs[k];
            proof {
                lemma_init_input_wf(before, ins[k as int]);
            }
            let vals: Option<Vec<u32>> = match inp.kind {
                InputKind::Float { default, .. } => Some(vec![default]),
                InputKind::Bool { default } => Some(vec![if default { ONE } else { 0 }]),
                InputKind::Long { default, .. } => Some(vec![int_to_f32(default as i64)]),
                InputKind::Color { default } => Some(vec![default.r, default.g, default.b, default.a]),
                InputKind::Point2D { default } => Some(vec![default.x, default.y]),
                InputKind::Event | InputKind::Image => None,
            };
            assert(match default_vals(inp.kind) {
                Some(dv) => vals matches Some(v) && v@ == dv,
                None => vals is None,
            });
            match vals {
                Some(v) => {
                    p.set_floats(inp.name.as_str(), v.as_slice());
                },
                None => {
                    if inp.kind == InputKind::Event {
                        let n = chars_of(inp.name.as_str());
                        match find_slot(&p.layout.slots, &n) {
                            Some(i) => {
                                p.event_slots.push(i);
                            },
                            None => {},
                        }
                    }
                },
            }
            assert(p@ == init_input(before, ins[k as int]));
            k = k + 1;
        }
        p
    }

    /// Call after a frame has been submitted: event inputs are one-shot, so
    /// each pending one is reset to zero and nothing stays pending.
    pub fn end_frame(&mut self)
        requires
            old(self).wf(),
        ensures
            final(self).wf(),
            final(self)@ == end_spec(old(self)@),
            final(self).layout == old(self).layout,
    {
        let ghost p0 = self@;
        let mut k: usize = 0;
        while k < self.pending_events.len()
            invariant
                k <= self.pending_events.len(),
                self.pending_events@ == p0.pending,
                self.event_slots@ == p0.events,
                self.layout == old(self).layout,
                slot_views(self.layout.slots@) == p0.slots,
                self.layout.size == p0.size,
                params_wf(p0),
                self.data@ == clear_run(p0.data, p0.slots, p0.pending, k as int),
                self.data@.len() == p0.data.len(),
            decreases self.pending_events.len() - k,
        {
            let i = self.pending_events[k];
            assert(p0.slots[i as int].offset + spec_size(p0.slots[i as int].kind) <= p0.size);
            let off = self.layout.slots[i].offset;
            write_u32(&mut self.data, off, 0);
            k = k + 1;
        }
        self.pending_events = Vec::new();
        assert(self@.pending =~= Seq::<usize>::empty());
    }
}

// ---------------------------------------------------------------- reloading
/// The slot of `old` that slot `j` of a new store takes its value from: the
/// one of the same name, when it has the same kind. Event inputs are
/// one-shot and start again from zero.
pub open spec fn kept_from(old: ParamsV, fresh: ParamsV, j: int) -> Option<nat> {
    let s = fresh.slots[j];
    if fresh.events.contains(j as usize) {
        None
    } else {
        match slot_index(old.slots, s.name) {
            Some(i) => if old.slots[i as int].kind == s.kind {
                Some(i)
            } else {
                None
            },
            None => None,
        }
    }
}

/// `d` with the bytes of slot `s` copied from `od` at `off`.
pub open spec fn copy_bytes(d: Seq<u8>, s: SlotV, od: Seq<u8>, off: nat) -> Seq<u8> {
    Seq::new(
        d.len(),
        |x: int|
            if s.offset <= x < s.offset + spec_size(s.kind) {
                od[off + (x - s.offset)]
            } else {
                d[x]
            },
    )
}

/// The first `n` slots of `fresh` given their values from `old`.
pub open spec fn migrate_run(old: ParamsV, fresh: ParamsV, n: nat) -> Seq<u8>
    decreases n,
{
    if n == 0 {
        fresh.data
    } else {
        let d = migrate_run(old, fresh, (n - 1) as nat);
        let s = fresh.slots[n - 1];
        match kept_from(old, fresh, n - 1) {
            Some(i) => copy_bytes(d, s, old.data, old.slots[i as int].offset),
            None => d,
        }
    }
}

/// `migrate`: the store of a new layout with its defaults, then the value of
/// every slot that still exists, with the same kind, carried over.
pub open spec fn migrate_spec(old: ParamsV, fresh: ParamsV) -> ParamsV {
    ParamsV { data: migrate_run(old, fresh, fresh.slots.len()), ..fresh }
}

proof fn lemma_migrate_run(old: ParamsV, fresh: ParamsV, n: nat)
    requires
        params_wf(old),
        params_wf(fresh),
        n <= fresh.slots.len(),
    ensures
        migrate_run(old, fresh, n).len() == fresh.data.len(),
    decreases n,
{
    if n > 0 {
        lemma_migrate_run(old, fresh, (n - 1) as nat);
    }
}

impl Params {
    /// The store for a reloaded shader (`isf` laid out as `layout`): its
    /// defaults, except that every slot whose name the current store has
    /// with the same kind keeps the current value; events start from zero
    /// and nothing is pending.
    pub fn migrate(&self, isf: &Isf, layout: Layout) -> (r: Params)
        requires
            self.wf(),
            slots_fit(slot_views(layout.slots@), layout.size as nat),
        ensures
            r.wf(),
            r.layout == layout,
            r@ == migrate_spec(
                self@,
                new_spec(input_views(isf.inputs@), slot_views(layout.slots@), layout.size as nat),
            ),
    {
        let ghost lay = layout;
        let mut p = Params::new(isf, layout);
        let ghost fresh = p@;
        let n = p.layout.slots.len();
        let mut j: usize = 0;
        proof {
            lemma_migrate_run(self@, fresh, 0);
        }
        while j < n
            invariant
                j <= n == p.layout.slots.len(),
                self.wf(),
                params_wf(fresh),
                p.wf(),
                p.layout == lay,
                p@ == (ParamsV { data: migrate_run(self@, fresh, j as nat), ..fresh }),
            decreases n - j,
        {
            let name = chars_of(p.layout.slots[j].name.as_str());
            let kind = p.layout.slots[j].kind;
            let off = p.layout.slots[j].offset;
            proof {
                lemma_slot_index(self@.slots, name@);
                lemma_migrate_run(self@, fresh, j as nat);
                assert(fresh.slots[j as int] == p.layout.slots@[j as int]@);
            }
            let event = contains_index(&p.event_slots, j);
            match find_slot(&self.layout.slots, &name) {
                Some(i) if !event => {
                    assert(self@.slots[i as int] == self.layout.slots@[i as int]@);
                    if self.layout.slots[i].kind == kind {
                        let from = self.layout.slots[i].offset;
                        let size = kind.size();
                        assert(self@.slots[i as int].offset + spec_size(kind) <= self@.size);
                        assert(fresh.slots[j as int].offset + spec_size(kind) <= fresh.size);
                        let ghost before = p.data@;
                        let mut t: usize = 0;
                        while t < size
                            invariant
                                t <= size == spec_size(kind),
                                from + size <= self.data.len(),
                                off + size <= p.data.len(),
                                p.data@.len() == before.len(),
                                p.layout == lay,
                                p.pending_events@ == fresh.pending,
                                p.event_slots@ == fresh.events,
                                forall|x: int|
                                    0 <= x < before.len() ==> #[trigger] p.data@[x] == if off <= x
                                        < off + t {
                                        self.data@[from + (x - off)]
                                    } else {
                                        before[x]
                                    },
                            decreases size - t,
                        {
                            let b = self.data[from + t];
                            p.data.set(off + t, b);
                            t = t + 1;
                        }
                        assert(p.data@ =~= copy_bytes(
                            before,
                            fresh.slots[j as int],
                            self@.data,
                            self@.slots[i as int].offset,
                        ));
                    }
                },
                _ => {},
            }
            assert(p.data@ == migrate_run(self@, fresh, (j + 1) as nat));
            j = j + 1;
        }
        p
    }
}

/// The byte `t` of new slot `j` after the first `upto` slots are carried
/// over: the old value when the slot is carried, else the new default.
pub open spec fn carried_byte(old: ParamsV, fresh: ParamsV, j: int, t: int, upto: int) -> u8 {
    if j < upto {
        match kept_from(old, fresh, j) {
            Some(i) => old.data[old.slots[i as int].offset + t],
            None => fresh.data[fresh.slots[j].offset + t],
        }
    } else {
        fresh.data[fresh.slots[j].offset + t]
    }
}

/// Reloading keeps the values of the inputs that still exist: in the
/// migrated store, every slot (but an event's) whose name the old store has
/// with the same kind holds the old bytes of that slot, when the new slots
/// do not overlap (as no layout's do); every other slot holds its new
/// default.
pub proof fn lemma_migrate_keeps_values(old: ParamsV, fresh: ParamsV)
    requires
        params_wf(old),
        params_wf(fresh),
        forall|a: int, b: int|
            0 <= a < b < fresh.slots.len() ==> (#[trigger] fresh.slots[a]).offset + spec_size(
                fresh.slots[a].kind,
            ) <= (#[trigger] fresh.slots[b]).offset,
    ensures
        migrate_spec(old, fresh).data.len() == fresh.data.len(),
        forall|j: int, t: int|
            0 <= j < fresh.slots.len() && 0 <= t < spec_size(fresh.slots[j].kind) ==> #[trigger] migrate_spec(
                old,
                fresh,
            ).data[fresh.slots[j].offset + t] == carried_byte(old, fresh, j, t, fresh.slots.len() as int),
{
    lemma_migrate_frame(old, fresh, fresh.slots.len());
}

/// Reloading keeps an input's value by its name: when the old store's last
/// slot named as new slot `j` has the same kind, and `j` is not an event's,
/// every byte of new slot `j` after `migrate` is the old slot's byte.
pub proof fn lemma_migrate_by_name(old: ParamsV, fresh: ParamsV, j: int, i: int, t: int)
    requires
        params_wf(old),
        params_wf(fresh),
        forall|a: int, b: int|
            0 <= a < b < fresh.slots.len() ==> (#[trigger] fresh.slots[a]).offset + spec_size(
                fresh.slots[a].kind,
            ) <= (#[trigger] fresh.slots[b]).offset,
        0 <= j < fresh.slots.len(),
        !fresh.events.contains(j as usize),
        0 <= i < old.slots.len(),
        old.slots[i].name == fresh.slots[j].name,
        forall|x: int| i < x < old.slots.len() ==> (#[trigger] old.slots[x]).name != old.slots[i].name,
        old.slots[i].kind == fresh.slots[j].kind,
        0 <= t < spec_size(fresh.slots[j].kind),
    ensures
        migrate_spec(old, fresh).data[fresh.slots[j].offset + t] == old.data[old.slots[i].offset + t],
{
    lemma_migrate_keeps_values(old, fresh);
    lemma_slot_index(old.slots, fresh.slots[j].name);
    let f = slot_index(old.slots, fresh.slots[j].name)->0 as int;
    if f < i {
        assert(old.slots[i].name != fresh.slots[j].name);
    } else if f > i {
        assert(old.slots[f].name != old.slots[i].name);
    }
    assert(kept_from(old, fresh, j) == Some(i as nat));
}

proof fn lemma_migrate_frame(old: ParamsV, fresh: ParamsV, n: nat)
    requires
        params_wf(old),
        params_wf(fresh),
        n <= fresh.slots.len(),
        forall|a: int, b: int|
            0 <= a < b < fresh.slots.len() ==> (#[trigger] fresh.slots[a]).offset + spec_size(
                fresh.slots[a].kind,
            ) <= (#[trigger] fresh.slots[b]).offset,
    ensures
        migrate_run(old, fresh, n).len() == fresh.data.len(),
        forall|j: int, t: int|
            0 <= j < fresh.slots.len() && 0 <= t < spec_size(fresh.slots[j].kind) ==> #[trigger] migrate_run(
                old,
                fresh,
                n,
            )[fresh.slots[j].offset + t] == carried_byte(old, fresh, j, t, n as int),
    decreases n,
{
    lemma_migrate_run(old, fresh, n);
    if n > 0 {
        let m = (n - 1) as nat;
        lemma_migrate_frame(old, fresh, m);
        let sn = fresh.slots[m as int];
        assert forall|j: int, t: int|
            0 <= j < fresh.slots.len() && 0 <= t < spec_size(
                fresh.slots[j].kind,
            ) implies #[trigger] migrate_run(old, fresh, n)[fresh.slots[j].offset + t]
            == carried_byte(old, fresh, j, t, n as int) by {
            let s = fresh.slots[j];
            assert(s.offset + spec_size(s.kind) <= fresh.size);
            assert(migrate_run(old, fresh, m)[s.offset + t] == carried_byte(old, fresh, j, t, m as int));
            if j != m {
                if j < m {
                    assert(s.offset + spec_size(s.kind) <= sn.offset);
                } else {
                    assert(sn.offset + spec_size(sn.kind) <= s.offset);
                }
            } else {
                lemma_slot_index(old.slots, s.name);
            }
        }
    }
}

// ---------------------------------------------------------------- per frame
/// Rust's `/` on integers: truncation toward zero.
pub open spec fn tdiv(a: int, b: int) -> int {
    if a >= 0 {
        a / b
    } else {
        -((-a) / b)
    }
}

/// Year, month and day of the civil (proleptic Gregorian) calendar for the
/// day `days` after 1970-01-01 (Howard Hinnant's `civil_from_days`).
pub open spec fn civil_from_days(days: int) -> (int, int, int) {
    let z = days + 719468;
    let era = tdiv(if z >= 0 { z } else { z - 146096 }, 146097);
    let doe = z - era * 146097;
    let yoe = tdiv(doe - tdiv(doe, 1460) + tdiv(doe, 36524) - tdiv(doe, 146096), 365);
    let y = yoe + era * 400;
    let doy = doe - (365 * yoe + tdiv(yoe, 4) - tdiv(yoe, 100));
    let mp = tdiv(5 * doy + 2, 153);
    let d = doy - tdiv(153 * mp + 2, 5) + 1;
    let m = if mp < 10 {
        mp + 3
    } else {
        mp - 9
    };
    (if m <= 2 {
        y + 1
    } else {
        y
    }, m, d)
}

/// ISF `DATE` for `secs` seconds after the Unix epoch, in UTC: year, month,
/// day, seconds since midnight, each as `f32` bits.
pub open spec fn date_vals(secs: nat) -> Seq<u32> {
    let (y, m, d) = civil_from_days((secs / 86400) as int);
    seq![f32_of_int(y), f32_of_int(m), f32_of_int(d), f32_of_int((secs % 86400) as int)]
}

/// The `DATE` values for `secs` seconds after the Unix epoch.
#[verifier::spinoff_prover]
#[verifier::rlimit(40)]
pub fn date_vec4(secs: u64) -> (r: Vec<u32>)
    ensures
        r@ == date_vals(secs as nat),
{
    let days: i64 = (secs / 86400) as i64;
    let sod: i64 = (secs % 86400) as i64;
    let z: i64 = days + 719468;
    let era: i64 = z / 146097;
    let doe: i64 = z - era * 146097;
    assert(0 <= doe < 146097) by (nonlinear_arith)
        requires
            z >= 0,
            era == z / 146097,
            doe == z - era * 146097,
    ;
    let yoe: i64 = (doe - doe / 1460 + doe / 36524 - doe / 146096) / 365;
    let y: i64 = yoe + era * 400;
    let doy: i64 = doe - (365 * yoe + yoe / 4 - yoe / 100);
    let mp: i64 = (5 * doy + 2) / 153;
    let d: i64 = doy - (153 * mp + 2) / 5 + 1;
    let m: i64 = if mp < 10 {
        mp + 3
    } else {
        mp - 9
    };
    let y2: i64 = if m <= 2 {
        y + 1
    } else {
        y
    };
    let r = vec![int_to_f32(y2), int_to_f32(m), int_to_f32(d), int_to_f32(sod)];
    assert(civil_from_days(days as int) == (y2 as int, m as int, d as int));
    r
}

/// `set_frame`: the per-frame builtins in order: `RENDERSIZE`, `TIME`,
/// `TIMEDELTA`, `FRAMEINDEX`, `PASSINDEX`, `DATE`.
pub open spec fn frame_spec(
    p: ParamsV,
    width: u32,
    height: u32,
    time: u32,
    dt: u32,
    frame: i32,
    pass: i32,
    secs: u64,
) -> ParamsV {
    let p1 = set_spec(p, "RENDERSIZE"@, seq![f32_of_int(width as int), f32_of_int(height as int)]).0;
    let p2 = set_spec(p1, "TIME"@, seq![time]).0;
    let p3 = set_spec(p2, "TIMEDELTA"@, seq![dt]).0;
    let p4 = set_spec(p3, "FRAMEINDEX"@, seq![f32_of_int(frame as int)]).0;
    let p5 = set_spec(p4, "PASSINDEX"@, seq![f32_of_int(pass as int)]).0;
    set_spec(p5, "DATE"@, date_vals(secs as nat)).0
}

impl Params {
    /// Update the per-frame builtins: render size, time and time step (`f32`
    /// bits), frame and pass index, and the date of `unix_secs`.
    pub fn set_frame(
        &mut self,
        width: u32,
        height: u32,
        time: u32,
        dt: u32,
        frame: i32,
        pass: i32,
        unix_secs: u64,
    )
        requires
            old(self).wf(),
        ensures
            final(self).wf(),
            final(self)@ == frame_spec(old(self)@, width, height, time, dt, frame, pass, unix_secs),
            final(self).layout == old(self).layout,
    {
        let ghost p0 = self@;
        let size = vec![int_to_f32(width as i64), int_to_f32(height as i64)];
        self.set_floats("RENDERSIZE", size.as_slice());
        let ghost p1 = self@;
        assert(p1 == set_spec(p0, "RENDERSIZE"@, seq![f32_of_int(width as int), f32_of_int(height as int)]).0);
        let t = vec![time];
        assert(t@ =~= seq![time]);
        self.set_floats("TIME", t.as_slice());
        let ghost p2 = self@;
        assert(p2 == set_spec(p1, "TIME"@, seq![time]).0);
        let d = vec![dt];
        assert(d@ =~= seq![dt]);
        self.set_floats("TIMEDELTA", d.as_slice());
        let ghost p3 = self@;
        assert(p3 == set_spec(p2, "TIMEDELTA"@, seq![dt]).0);
        let f = vec![int_to_f32(frame as i64)];
        assert(f@ =~= seq![f32_of_int(frame as int)]);
        self.set_floats("FRAMEINDEX", f.as_slice());
        let ghost p4 = self@;
        assert(p4 == set_spec(p3, "FRAMEINDEX"@, seq![f32_of_int(frame as int)]).0);
        let ps = vec![int_to_f32(pass as i64)];
        assert(ps@ =~= seq![f32_of_int(pass as int)]);
        self.set_floats("PASSINDEX", ps.as_slice());
        let ghost p5 = self@;
        assert(p5 == set_spec(p4, "PASSINDEX"@, seq![f32_of_int(pass as int)]).0);
        let date = date_vec4(unix_secs);
        self.set_floats("DATE", date.as_slice());
    }
}

/// `d` with zero written at the slots of the first `n` pending events.
pub open spec fn clear_run(d: Seq<u8>, ss: Seq<SlotV>, pending: Seq<usize>, n: int) -> Seq<u8>
    decreases n,
{
    if n <= 0 {
        d
    } else {
        write_word(clear_run(d, ss, pending, n - 1), ss[pending[n - 1] as int].offset as int, 0)
    }
}

/// `end_frame`: pending events read zero again and none stays pending.
pub open spec fn end_spec(p: ParamsV) -> ParamsV {
    ParamsV {
        data: clear_run(p.data, p.slots, p.pending, p.pending.len() as int),
        pending: Seq::empty(),
        ..p
    }
}


// ---------------------------------------------------------------- reading back
/// The little-endian word at `off`.
pub open spec fn word_at(d: Seq<u8>, off: int) -> u32 {
    (d[off] + 0x100 * d[off + 1] + 0x1_0000 * d[off + 2] + 0x100_0000 * d[off + 3]) as u32
}

proof fn lemma_word_bytes(w: u32)
    ensures
        byte_of(w, 0) + 0x100 * byte_of(w, 1) + 0x1_0000 * byte_of(w, 2) + 0x100_0000 * byte_of(w, 3)
            == w,
{
    assert((w % 0x100) + 0x100 * ((w / 0x100) % 0x100) + 0x1_0000 * ((w / 0x1_0000) % 0x100)
        + 0x100_0000 * (w / 0x100_0000) == w) by (nonlinear_arith);
}

proof fn lemma_write_word(d: Seq<u8>, off: int, w: u32)
    requires
        0 <= off,
        off + 4 <= d.len(),
    ensures
        write_word(d, off, w).len() == d.len(),
        word_at(write_word(d, off, w), off) == w,
        forall|x: int|
            0 <= x < d.len() && (x < off || x >= off + 4) ==> #[trigger] write_word(d, off, w)[x]
                == d[x],
{
    lemma_word_bytes(w);
}

proof fn lemma_write_words(d: Seq<u8>, off: int, vals: Seq<u32>, n: int)
    requires
        0 <= n <= vals.len(),
        0 <= off,
        off + 4 * n <= d.len(),
    ensures
        write_words(d, off, vals, n).len() == d.len(),
        forall|x: int|
            0 <= x < d.len() && (x < off || x >= off + 4 * n) ==> #[trigger] write_words(
                d,
                off,
                vals,
                n,
            )[x] == d[x],
        forall|k: int| 0 <= k < n ==> #[trigger] word_at(write_words(d, off, vals, n), off + 4 * k)
            == vals[k],
    decreases n,
{
    if n > 0 {
        lemma_write_words(d, off, vals, n - 1);
        let prev = write_words(d, off, vals, n - 1);
        lemma_write_word(prev, off + 4 * (n - 1), vals[n - 1]);
        let cur = write_words(d, off, vals, n);
        assert forall|k: int| 0 <= k < n implies #[trigger] word_at(cur, off + 4 * k) == vals[k] by {
            if k < n - 1 {
                assert(word_at(prev, off + 4 * k) == vals[k]);
                assert(cur[off + 4 * k] == prev[off + 4 * k]);
                assert(cur[off + 4 * k + 1] == prev[off + 4 * k + 1]);
                assert(cur[off + 4 * k + 2] == prev[off + 4 * k + 2]);
                assert(cur[off + 4 * k + 3] == prev[off + 4 * k + 3]);
            }
        }
    }
}

/// What a set reads back: the slot named `name` holds the values given,
/// each in its word (an int slot the first value as `int_of` says, so an
/// event's slot 1 for any nonzero value, a color given
/// three components an alpha of 1.0), and no byte outside the slot changed.
pub proof fn lemma_set_reads_back(p: ParamsV, name: Seq<char>, vals: Seq<u32>)
    requires
        params_wf(p),
        slot_index(p.slots, name) is Some,
    ensures
        ({
            let i = slot_index(p.slots, name)->0 as int;
            let s = p.slots[i];
            let off = s.offset as int;
            let q = set_spec(p, name, vals).0;
            &&& set_spec(p, name, vals).1
            &&& q.data.len() == p.data.len()
            &&& q.slots == p.slots && q.size == p.size && q.events == p.events
            &&& forall|x: int|
                0 <= x < p.data.len() && (x < off || x >= off + spec_size(s.kind)) ==> #[trigger] q.data[x]
                    == p.data[x]
            &&& (vals.len() > 0 && s.kind == SlotKind::F32) ==> word_at(q.data, off) == vals[0]
            &&& (vals.len() > 0 && s.kind == SlotKind::I32) ==> word_at(q.data, off) == int_of(
                vals[0],
                p.events.contains(i as usize),
            )
            &&& s.kind == SlotKind::Vec2 ==> forall|k: int|
                0 <= k < 2 && k < vals.len() ==> #[trigger] word_at(q.data, off + 4 * k) == vals[k]
            &&& s.kind == SlotKind::Vec4 ==> forall|k: int|
                0 <= k < 4 && k < vals.len() ==> #[trigger] word_at(q.data, off + 4 * k) == vals[k]
            &&& (s.kind == SlotKind::Vec4 && vals.len() == 3) ==> word_at(q.data, off + 12) == ONE
        }),
{
    lemma_slot_index(p.slots, name);
    let i = slot_index(p.slots, name)->0 as int;
    let s = p.slots[i];
    let off = s.offset as int;
    let d = p.data;
    assert(s.offset + spec_size(s.kind) <= p.size);
    match s.kind {
        SlotKind::F32 => {
            if vals.len() > 0 {
                lemma_write_word(d, off, vals[0]);
            }
        },
        SlotKind::I32 => {
            if vals.len() > 0 {
                lemma_write_word(d, off, int_of(vals[0], p.events.contains(i as usize)));
            }
        },
        SlotKind::Vec2 => {
            let n: int = if vals.len() < 2 { vals.len() as int } else { 2 };
            lemma_write_words(d, off, vals, n);
        },
        SlotKind::Vec4 => {
            let n: int = if vals.len() < 4 { vals.len() as int } else { 4 };
            lemma_write_words(d, off, vals, n);
            if vals.len() == 3 {
                let w = write_words(d, off, vals, n);
                lemma_write_word(w, off + 12, ONE);
                let q = write_word(w, off + 12, ONE);
                assert forall|k: int| 0 <= k < 4 && k < vals.len() implies #[trigger] word_at(
                    q,
                    off + 4 * k,
                ) == vals[k] by {
                    assert(word_at(w, off + 4 * k) == vals[k]);
                    assert(q[off + 4 * k] == w[off + 4 * k]);
                    assert(q[off + 4 * k + 1] == w[off + 4 * k + 1]);
                    assert(q[off + 4 * k + 2] == w[off + 4 * k + 2]);
                    assert(q[off + 4 * k + 3] == w[off + 4 * k + 3]);
                }
            }
        },
    }
}

/// Setting a name that no slot has changes nothing and reports it.
pub proof fn lemma_set_unknown(p: ParamsV, name: Seq<char>, vals: Seq<u32>)
    requires
        slot_index(p.slots, name) is None,
    ensures
        set_spec(p, name, vals) == (p, false),
{
}

proof fn lemma_clear_run(d: Seq<u8>, ss: Seq<SlotV>, pending: Seq<usize>, n: int)
    requires
        0 <= n <= pending.len(),
        forall|j: int| 0 <= j < pending.len() ==> (#[trigger] pending[j]) < ss.len(),
        forall|j: int|
            0 <= j < ss.len() ==> (#[trigger] ss[j]).offset + spec_size(ss[j].kind) <= d.len(),
    ensures
        clear_run(d, ss, pending, n).len() == d.len(),
        forall|j: int|
            0 <= j < n ==> #[trigger] word_at(
                clear_run(d, ss, pending, n),
                ss[pending[j] as int].offset as int,
            ) == 0,
        forall|x: int|
            0 <= x < d.len() && (forall|j: int|
                0 <= j < n ==> !(ss[#[trigger] pending[j] as int].offset <= x < ss[pending[j] as int].offset
                    + 4)) ==> #[trigger] clear_run(d, ss, pending, n)[x] == d[x],
    decreases n,
{
    if n > 0 {
        lemma_clear_run(d, ss, pending, n - 1);
        let prev = clear_run(d, ss, pending, n - 1);
        let o = ss[pending[n - 1] as int].offset as int;
        assert(spec_size(ss[pending[n - 1] as int].kind) >= 4);
        lemma_write_word(prev, o, 0);
        let cur = clear_run(d, ss, pending, n);
        assert forall|j: int| 0 <= j < n implies #[trigger] word_at(
            cur,
            ss[pending[j] as int].offset as int,
        ) == 0 by {
            if j < n - 1 {
                let oj = ss[pending[j] as int].offset as int;
                assert(spec_size(ss[pending[j] as int].kind) >= 4);
                assert(word_at(prev, oj) == 0);
                assert(prev[oj] == 0 && prev[oj + 1] == 0 && prev[oj + 2] == 0 && prev[oj + 3] == 0);
                assert(byte_of(0, 0) == 0 && byte_of(0, 1) == 0 && byte_of(0, 2) == 0 && byte_of(0, 3) == 0);
                assert(cur[oj] == 0 && cur[oj + 1] == 0 && cur[oj + 2] == 0 && cur[oj + 3] == 0);
            }
        }
    }
}

/// What `end_frame` does to the block: the word of every event that was
/// pending reads zero, nothing stays pending, and every byte outside those
/// words is kept.
pub proof fn lemma_end_frame_clears(p: ParamsV)
    requires
        params_wf(p),
    ensures
        end_spec(p).pending.len() == 0,
        end_spec(p).data.len() == p.data.len(),
        forall|j: int|
            0 <= j < p.pending.len() ==> #[trigger] word_at(
                end_spec(p).data,
                p.slots[p.pending[j] as int].offset as int,
            ) == 0,
        forall|x: int|
            0 <= x < p.data.len() && (forall|j: int|
                0 <= j < p.pending.len() ==> !(p.slots[#[trigger] p.pending[j] as int].offset <= x
                    < p.slots[p.pending[j] as int].offset + 4)) ==> #[trigger] end_spec(p).data[x]
                == p.data[x],
{
    lemma_clear_run(p.data, p.slots, p.pending, p.pending.len() as int);
}

proof fn lemma_write_words_len(d: Seq<u8>, off: int, vals: Seq<u32>, n: int)
    ensures
        write_words(d, off, vals, n).len() == d.len(),
    decreases n,
{
    if n > 0 {
        lemma_write_words_len(d, off, vals, n - 1);
    }
}


/// An event fires on a bang or any nonzero value: its slot reads 1 and it is
/// pending until the frame ends; a zero leaves it at 0 and not pending.
pub proof fn lemma_event_fires(p: ParamsV, name: Seq<char>, v: u32)
    requires
        params_wf(p),
        slot_index(p.slots, name) is Some,
        p.slots[slot_index(p.slots, name)->0 as int].kind == SlotKind::I32,
        p.events.contains(slot_index(p.slots, name)->0 as usize),
    ensures
        ({
            let i = slot_index(p.slots, name)->0;
            let q = set_spec(p, name, seq![v]).0;
            &&& word_at(q.data, p.slots[i as int].offset as int) == if nonzero(v) { 1u32 } else { 0u32 }
            &&& q.pending == if nonzero(v) { p.pending.push(i as usize) } else { p.pending }
        }),
{
    lemma_set_reads_back(p, name, seq![v]);
}

// ---------------------------------------------------------------- defaults
/// Whether the slot named as input `i` holds the input's declared default:
/// a bool's int reads 1 when the default is true and 0 when it is false, a
/// float's word its bits, a point2D's words x then y, a color's r, g, b, a.
pub open spec fn holds_default(p: ParamsV, i: InputV) -> bool {
    match i.kind {
        InputKind::Bool { .. } | InputKind::Float { .. } | InputKind::Point2D { .. }
        | InputKind::Color { .. } => match slot_index(p.slots, i.name) {
            None => false,
            Some(j) => {
                let o = p.slots[j as int].offset as int;
                match i.kind {
                    InputKind::Bool { default } => word_at(p.data, o) == if default {
                        1u32
                    } else {
                        0u32
                    },
                    InputKind::Float { default, .. } => word_at(p.data, o) == default,
                    InputKind::Point2D { default } => word_at(p.data, o) == default.x && word_at(
                        p.data,
                        o + 4,
                    ) == default.y,
                    InputKind::Color { default } => word_at(p.data, o) == default.r && word_at(
                        p.data,
                        o + 4,
                    ) == default.g && word_at(p.data, o + 8) == default.b && word_at(
                        p.data,
                        o + 12,
                    ) == default.a,
                    _ => true,
                }
            },
        },
        _ => true,
    }
}

/// The slot found under an input's name is the input's own, of the type its
/// kind gets, when no two inputs share a name.
proof fn lemma_slot_of_input(ins: Seq<InputV>, k: int)
    requires
        0 <= k < ins.len(),
        ins[k].kind != InputKind::Image,
        forall|a: int, b: int|
            0 <= a < b < ins.len() ==> (#[trigger] ins[a]).name != (#[trigger] ins[b]).name,
    ensures
        slot_index(layout_of(ins).0, ins[k].name) matches Some(j) && layout_of(ins).0[j as int].kind
            == (input_entry(ins[k])->0).2,
{
    let ss = layout_of(ins).0;
    crate::layout::lemma_input_member(ins, k);
    lemma_slot_index(ss, ins[k].name);
    let at = choose|at: int| 6 <= at < ss.len() && (#[trigger] ss[at]).name == ins[k].name;
    assert(ss[at].name == ins[k].name);
}

proof fn lemma_default_kept(p: ParamsV, q: ParamsV, i: InputV)
    requires
        holds_default(p, i),
        q.slots == p.slots,
        slot_index(p.slots, i.name) matches Some(j) && (p.slots[j as int].kind == (input_entry(i)->0).2
            && forall|x: int|
            p.slots[j as int].offset <= x < p.slots[j as int].offset + spec_size(p.slots[j as int].kind)
                ==> #[trigger] q.data[x] == p.data[x]),
    ensures
        holds_default(q, i),
{
    let j = slot_index(p.slots, i.name)->0;
    let o = p.slots[j as int].offset as int;
    assert(q.data[o] == p.data[o] && q.data[o + 1] == p.data[o + 1] && q.data[o + 2] == p.data[o + 2]
        && q.data[o + 3] == p.data[o + 3]);
    match i.kind {
        InputKind::Point2D { .. } => {
            assert(q.data[o + 4] == p.data[o + 4] && q.data[o + 5] == p.data[o + 5] && q.data[o + 6]
                == p.data[o + 6] && q.data[o + 7] == p.data[o + 7]);
        },
        InputKind::Color { .. } => {
            assert(q.data[o + 4] == p.data[o + 4] && q.data[o + 5] == p.data[o + 5] && q.data[o + 6]
                == p.data[o + 6] && q.data[o + 7] == p.data[o + 7]);
            assert(q.data[o + 8] == p.data[o + 8] && q.data[o + 9] == p.data[o + 9] && q.data[o + 10]
                == p.data[o + 10] && q.data[o + 11] == p.data[o + 11]);
            assert(q.data[o + 12] == p.data[o + 12] && q.data[o + 13] == p.data[o + 13] && q.data[o + 14]
                == p.data[o + 14] && q.data[o + 15] == p.data[o + 15]);
        },
        _ => {},
    }
}

/// The zeroed store over the layout of `ins`.
pub open spec fn zeroed(ins: Seq<InputV>) -> ParamsV {
    ParamsV {
        slots: layout_of(ins).0,
        size: layout_of(ins).1,
        data: Seq::new(layout_of(ins).1, |i: int| 0u8),
        pending: Seq::empty(),
        events: Seq::empty(),
    }
}

#[verifier::spinoff_prover]
#[verifier::rlimit(60)]
proof fn lemma_init_defaults(ins: Seq<InputV>, n: nat)
    requires
        n <= ins.len(),
        forall|a: int, b: int|
            0 <= a < b < ins.len() ==> (#[trigger] ins[a]).name != (#[trigger] ins[b]).name,
    ensures
        params_wf(init_run(zeroed(ins), ins, n)),
        init_run(zeroed(ins), ins, n).slots == layout_of(ins).0,
        init_run(zeroed(ins), ins, n).size == layout_of(ins).1,
        forall|k: int| 0 <= k < n ==> holds_default(init_run(zeroed(ins), ins, n), #[trigger] ins[k]),
    decreases n,
{
    let ss = layout_of(ins).0;
    crate::layout::lemma_layout_sound(ins);
    if n == 0 {
        assert(slots_fit(ss, layout_of(ins).1));
    } else {
        let m = (n - 1) as nat;
        lemma_init_defaults(ins, m);
        let prev = init_run(zeroed(ins), ins, m);
        let cur = init_run(zeroed(ins), ins, n);
        let inp = ins[m as int];
        lemma_init_input_wf(prev, inp);
        assert(cur == init_input(prev, inp));
        lemma_slot_index(ss, inp.name);
        match default_vals(inp.kind) {
            Some(vals) => {
                lemma_slot_of_input(ins, m as int);
                lemma_set_reads_back(prev, inp.name, vals);
                let jn = slot_index(ss, inp.name)->0 as int;
                let sn = ss[jn];
                crate::floatbits::lemma_round_unit();
                assert forall|k: int| 0 <= k < n implies holds_default(cur, #[trigger] ins[k]) by {
                    if k < m {
                        assert(holds_default(prev, ins[k]));
                        if ins[k].kind != InputKind::Image {
                            lemma_slot_of_input(ins, k);
                            let jk = slot_index(ss, ins[k].name)->0 as int;
                            lemma_slot_index(ss, ins[k].name);
                            assert(ins[k].name != inp.name);
                            assert(jk != jn);
                            let sk = ss[jk];
                            if jk < jn {
                                assert(sk.offset + spec_size(sk.kind) <= sn.offset);
                            } else {
                                assert(sn.offset + spec_size(sn.kind) <= sk.offset);
                            }
                            lemma_default_kept(prev, cur, ins[k]);
                        }
                    } else {
                        let o = sn.offset as int;
                        assert(word_at(cur.data, o + 4 * 0) == vals[0] || sn.kind == SlotKind::I32);
                        if vals.len() >= 2 {
                            assert(word_at(cur.data, o + 4 * 1) == vals[1]);
                        }
                        if vals.len() >= 4 {
                            assert(word_at(cur.data, o + 4 * 2) == vals[2]);
                            assert(word_at(cur.data, o + 4 * 3) == vals[3]);
                        }
                        assert(o + 4 * 0 == o);
                    }
                }
            },
            None => {
                assert(cur.data == prev.data);
                assert forall|k: int| 0 <= k < n implies holds_default(cur, #[trigger] ins[k]) by {
                    if k < m {
                        assert(holds_default(prev, ins[k]));
                    } else {
                        assert(inp.kind == InputKind::Event || inp.kind == InputKind::Image);
                    }
                }
            },
        }
    }
}

/// Construction writes every input's declared default into the block: when
/// no two inputs share a name, after `new` over the inputs' layout the slot
/// of each bool input reads 1 if its default is true and 0 if it is false,
/// each float slot reads the default's bits, each point2D slot x then y and
/// each color slot r, g, b, a.
pub proof fn lemma_new_holds_defaults(ins: Seq<InputV>)
    requires
        forall|a: int, b: int|
            0 <= a < b < ins.len() ==> (#[trigger] ins[a]).name != (#[trigger] ins[b]).name,
    ensures
        forall|k: int|
            0 <= k < ins.len() ==> holds_default(
                new_spec(ins, layout_of(ins).0, layout_of(ins).1),
                #[trigger] ins[k],
            ),
{
    lemma_init_defaults(ins, ins.len());
    assert(new_spec(ins, layout_of(ins).0, layout_of(ins).1) == init_run(zeroed(ins), ins, ins.len()));
}

} // verus!
