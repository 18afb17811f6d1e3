//! OSC control: `/vlfo/<input> <values...>` sets an ISF input. Packets are
//! decoded by rosc; this module reads their arguments as `f32` values (bits)
//! and writes them into the parameter store, bundles in order.
use vstd::prelude::*;
use crate::text::{chars_of, copy_range, starts_with};
use crate::params::{Params, ParamsV, set_spec, slot_index, params_wf, word_at, lemma_set_reads_back, lemma_slot_index};
use crate::layout::{SlotKind, layout_of, lemma_every_input_placed};
use crate::isf::{InputV, InputKind};
use crate::floatbits::nonzero;
use crate::floatbits::{ONE, f32_of_int, int_to_f32, f32_of_f64, f64_to_f32};

verus! {

/// Every input is addressed as this prefix followed by its name.
pub const PREFIX: &'static str = "/vlfo/";

pub open spec fn prefix() -> Seq<char> {
    seq!['/', 'v', 'l', 'f', 'o', '/']
}

/// An OSC argument as the receiver reads it. `Float` holds the bits of an
/// `f32`, `Double` those of an `f64`; `Other` stands for the types that carry
/// no number (strings, blobs, times, colors, MIDI, arrays, infinitum).
#[derive(Debug, Clone, Copy, PartialEq, Eq, Structural)]
pub enum OscArg {
    Float(u32),
    Double(u64),
    Int(i32),
    Long(i64),
    Bool(bool),
    Nil,
    Other,
}

/// An OSC message: address and arguments.
#[derive(Debug)]
pub struct Message {
    pub addr: String,
    pub args: Vec<OscArg>,
}

/// An OSC packet: a message, or a bundle of packets delivered in order.
#[derive(Debug)]
pub enum Packet {
    Message(Message),
    Bundle(Vec<Packet>),
}

/// The `f32` an argument stands for: numbers converted (a double rounded to
/// the nearest `f32`), a bool as 0 or 1, a
/// bare `Nil` as a bang (1.0); `None` for the rest.
pub open spec fn arg_value(a: OscArg) -> Option<u32> {
    match a {
        OscArg::Float(b) => Some(b),
        OscArg::Double(d) => Some(f32_of_f64(d)),
        OscArg::Int(i) => Some(f32_of_int(i as int)),
        OscArg::Long(l) => Some(f32_of_int(l as int)),
        OscArg::Bool(b) => Some(
            if b {
                ONE
            } else {
                0
            },
        ),
        OscArg::Nil => Some(ONE),
        OscArg::Other => None,
    }
}

/// The values of the arguments that have one, in order.
pub open spec fn arg_values(args: Seq<OscArg>) -> Seq<u32>
    decreases args.len(),
{
    if args.len() == 0 {
        Seq::empty()
    } else {
        let rest = arg_values(args.drop_last());
        match arg_value(args.last()) {
            Some(v) => rest.push(v),
            None => rest,
        }
    }
}

/// What a message sets: its argument values, or a single 1.0 when it has
/// none (a message with no arguments is a trigger).
pub open spec fn message_values(args: Seq<OscArg>) -> Seq<u32> {
    if arg_values(args).len() == 0 {
        seq![ONE]
    } else {
        arg_values(args)
    }
}

/// The input an address names: what follows the prefix.
pub open spec fn input_name(addr: Seq<char>) -> Option<Seq<char>> {
    if addr.len() >= 6 && addr.take(6) == prefix() {
        Some(addr.skip(6))
    } else {
        None
    }
}

/// `apply`: the store after a message, and `None` when the address is not
/// ours, else whether the input exists.
pub open spec fn apply_spec(p: ParamsV, addr: Seq<char>, args: Seq<OscArg>) -> (ParamsV, Option<bool>) {
    match input_name(addr) {
        None => (p, None),
        Some(name) => {
            let (q, ok) = set_spec(p, name, message_values(args));
            (q, Some(ok))
        },
    }
}

/// `handle`: the store after a packet, each message of a bundle applied in
/// order.
pub open spec fn handle_spec(p: ParamsV, pk: Packet) -> ParamsV
    decreases pk, 0nat,
{
    match pk {
        Packet::Message(m) => apply_spec(p, m.addr@, m.args@).0,
        Packet::Bundle(v) => handle_seq(p, v@, v@.len()),
    }
}

/// The first `n` packets of `ps` handled in order.
pub open spec fn handle_seq(p: ParamsV, ps: Seq<Packet>, n: nat) -> ParamsV
    decreases ps, n,
{
    if n == 0 || n > ps.len() {
        p
    } else {
        handle_spec(handle_seq(p, ps, (n - 1) as nat), ps[n - 1])
    }
}

/// The value of one argument, as `f32` bits.
pub fn to_f32(a: &OscArg) -> (r: Option<u32>)
    ensures
        r == arg_value(*a),
{
    match a {
        OscArg::Float(b) => Some(*b),
        OscArg::Double(d) => Some(f64_to_f32(*d)),
        OscArg::Int(i) => Some(int_to_f32(*i as i64)),
        OscArg::Long(l) => Some(int_to_f32(*l)),
        OscArg::Bool(b) => Some(
            if *b {
                ONE
            } else {
                0
            },
        ),
        OscArg::Nil => Some(ONE),
        OscArg::Other => None,
    }
}

fn values_of(args: &Vec<OscArg>) -> (r: Vec<u32>)
    ensures
        r@ == message_values(args@),
{
    let mut out: Vec<u32> = Vec::new();
    let mut i: usize = 0;
    while i < args.len()
        invariant
            i <= args.len(),
            out@ == arg_values(args@.take(i as int)),
        decreases args.len() - i,
    {
        assert(args@.take(i + 1).drop_last() =~= args@.take(i as int));
        match to_f32(&args[i]) {
            Some(v) => out.push(v),
            None => {},
        }
        i = i + 1;
    }
    assert(args@.take(args.len() as int) =~= args@);
    if out.len() == 0 {
        out.push(ONE);
        assert(out@ =~= seq![ONE]);
    }
    out
}

/// Apply one message: an address `/vlfo/<name>` sets the input `name` from
/// the arguments. Returns `None` for an address without the prefix, else
/// whether the input exists.
pub fn apply(m: &Message, params: &mut Params) -> (r: Option<bool>)
    requires
        old(params).wf(),
    ensures
        final(params).wf(),
        final(params).layout == old(params).layout,
        (final(params)@, r) == apply_spec(old(params)@, m.addr@, m.args@),
{
    let addr = chars_of(m.addr.as_str());
    let pre = chars_of(PREFIX);
    proof {
        reveal_strlit("/vlfo/");
        assert(pre@ =~= prefix());
    }
    if !starts_with(&addr, &pre) {
        return None;
    }
    let rest = copy_range(&addr, 6, addr.len());
    assert(rest@ =~= m.addr@.skip(6));
    let name = crate::text::string_of(&rest);
    let vals = values_of(&m.args);
    let ok = params.set_floats(name.as_str(), vals.as_slice());
    Some(ok)
}

/// Handle a packet: a message is applied, a bundle's packets are handled in
/// order.
#[verifier::loop_isolation(false)]
pub fn handle(packet: &Packet, params: &mut Params)
    requires
        old(params).wf(),
    ensures
        final(params).wf(),
        final(params).layout == old(params).layout,
        final(params)@ == handle_spec(old(params)@, *packet),
    decreases packet, 0nat,
{
    match packet {
        Packet::Message(m) => {
            apply(m, params);
        },
        Packet::Bundle(v) => {
            let ghost p0 = params@;
            let mut i: usize = 0;
            while i < v.len()
                invariant
                    i <= v.len(),
                    params.wf(),
                    params.layout == old(params).layout,
                    params@ == handle_seq(p0, v@, i as nat),
                    p0 == old(params)@,
                decreases v.len() - i,
            {
                proof {
                    assert(decreases_to!(*packet => packet->Bundle_0));
                    assert(decreases_to!(*v => v@));
                    assert(decreases_to!(v@ => v@[i as int]));
                }
                handle(&v[i], params);
                i = i + 1;
            }
        },
    }
}

// ---------------------------------------------------------------- decoding
#[verifier::external_type_specification]
#[verifier::external_body]
pub struct ExOscPacket(rosc::OscPacket);

/// What `rosc::decoder::decode_udp` makes of a datagram: the packet,
/// converted (arguments as in `OscArg`, bundles' content in order), or the
/// error's message.
pub uninterp spec fn decoded_osc(bytes: Seq<u8>) -> Result<Packet, Seq<char>>;

/// Converts a decoded `rosc::OscPacket`: the conversion of `decode`'s result,
/// argument for argument.
#[verifier::external_body]
fn packet_of(p: rosc::OscPacket) -> Packet {
    match p {
        rosc::OscPacket::Message(m) => Packet::Message(Message {
            addr: m.addr,
            args: m.args.iter().map(|a| match a {
                rosc::OscType::Float(x) => OscArg::Float(x.to_bits()),
                rosc::OscType::Double(x) => OscArg::Double(x.to_bits()),
                rosc::OscType::Int(i) => OscArg::Int(*i),
                rosc::OscType::Long(l) => OscArg::Long(*l),
                rosc::OscType::Bool(b) => OscArg::Bool(*b),
                rosc::OscType::Nil => OscArg::Nil,
                _ => OscArg::Other,
            }).collect(),
        }),
        rosc::OscPacket::Bundle(b) => Packet::Bundle(b.content.into_iter().map(packet_of).collect()),
    }
}

/// `rosc::decoder::decode_udp`: decodes one UDP datagram. The contract
/// names the result `decoded_osc(bytes)`: it is a function of the bytes
/// alone, and nothing more of it is stated here.
#[verifier::external_body]
pub(crate) fn decode(bytes: &[u8]) -> (r: Result<Packet, String>)
    ensures
        match decoded_osc(bytes@) {
            Ok(p) => r == Ok::<Packet, String>(p),
            Err(m) => r matches Err(e) && e@ == m,
        },
{
    match rosc::decoder::decode_udp(bytes) {
        Ok((_, p)) => Ok(packet_of(p)),
        Err(e) => Err(e.to_string()),
    }
}

/// Receive one datagram: a packet that decodes is handled, one that does not
/// changes nothing and its error is returned.
pub fn receive(bytes: &[u8], params: &mut Params) -> (r: Result<(), String>)
    requires
        old(params).wf(),
    ensures
        final(params).wf(),
        final(params).layout == old(params).layout,
        match decoded_osc(bytes@) {
            Ok(p) => r is Ok && final(params)@ == handle_spec(old(params)@, p),
            Err(m) => r matches Err(e) && e@ == m && final(params)@ == old(params)@,
        },
{
    match decode(bytes) {
        Ok(p) => {
            handle(&p, params);
            Ok(())
        },
        Err(m) => Err(m),
    }
}

/// Every input is reachable over OSC: a message to `/vlfo/<name>` sets `name`
/// exactly as `set_floats` would, with the message's values (1.0 when it
/// carries none), and reports whether the input exists.
pub proof fn lemma_osc_address_sets(p: ParamsV, name: Seq<char>, args: Seq<OscArg>)
    ensures
        apply_spec(p, prefix() + name, args) == ({
            let (q, ok) = set_spec(p, name, message_values(args));
            (q, Some(ok))
        }),
{
    assert((prefix() + name).take(6) =~= prefix());
    assert((prefix() + name).skip(6) =~= name);
}

/// A message whose address lacks the prefix changes nothing.
pub proof fn lemma_foreign_address_ignored(p: ParamsV, addr: Seq<char>, args: Seq<OscArg>)
    requires
        !(addr.len() >= 6 && addr.take(6) == prefix()),
    ensures
        apply_spec(p, addr, args) == (p, None::<bool>),
{
}

/// A bang: a message with no arguments sets the single value 1.0.
pub proof fn lemma_bang(args: Seq<OscArg>)
    requires
        args.len() == 0,
    ensures
        message_values(args) == seq![ONE],
{
}


/// An event takes a bang: a message with no arguments to an event input
/// sets its int to 1 and makes it pending until the frame ends.
pub proof fn lemma_bang_fires_event(p: ParamsV, name: Seq<char>)
    requires
        params_wf(p),
        slot_index(p.slots, name) is Some,
        p.slots[slot_index(p.slots, name)->0 as int].kind == SlotKind::I32,
        p.events.contains(slot_index(p.slots, name)->0 as usize),
    ensures
        ({
            let i = slot_index(p.slots, name)->0;
            let (q, ok) = apply_spec(p, prefix() + name, Seq::empty());
            &&& ok == Some(true)
            &&& q.pending == p.pending.push(i as usize)
            &&& word_at(q.data, p.slots[i as int].offset as int) == 1
        }),
{
    lemma_osc_address_sets(p, name, Seq::empty());
    let vals = message_values(Seq::<OscArg>::empty());
    assert(arg_values(Seq::<OscArg>::empty()).len() == 0);
    assert(vals == seq![ONE]);
    assert(nonzero(ONE));
    lemma_set_reads_back(p, name, vals);

}


/// Every ISF input (but an image) is reachable over OSC: in a store laid
/// out for the shader's inputs, a message to `/vlfo/<NAME>` finds the input.
pub proof fn lemma_every_input_reachable(p: ParamsV, ins: Seq<InputV>, k: int, args: Seq<OscArg>)
    requires
        p.slots == layout_of(ins).0,
        0 <= k < ins.len(),
        ins[k].kind != InputKind::Image,
    ensures
        apply_spec(p, prefix() + ins[k].name, args).1 == Some(true),
{
    lemma_every_input_placed(ins, k);
    lemma_slot_index(p.slots, ins[k].name);
    lemma_osc_address_sets(p, ins[k].name, args);
}

} // verus!
