use vlfo::isf::{Input, InputKind, Isf, Rgba, Xy};
use vlfo::layout::layout;
use vlfo::osc::{apply, handle, receive, to_f32, Message, OscArg, Packet, PREFIX};
use vlfo::params::{date_vec4, Params};

fn input(name: &str, kind: InputKind) -> Input {
    Input { name: name.to_string(), label: None, kind }
}

fn bits(f: f32) -> u32 {
    f.to_bits()
}

fn shader() -> Isf {
    Isf {
        description: String::new(),
        credit: String::new(),
        categories: Vec::new(),
        inputs: vec![
            input("speed", InputKind::Float { default: bits(0.25), min: 0, max: bits(1.0) }),
            input("tint", InputKind::Color { default: Rgba { r: bits(1.0), g: bits(0.5), b: 0, a: bits(1.0) } }),
            input("pos", InputKind::Point2D { default: Xy { x: bits(0.5), y: bits(0.25) } }),
            input("on", InputKind::Bool { default: true }),
            input("hit", InputKind::Event),
            input("n", InputKind::Long { default: -7, min: -10, max: 10 }),
            input("img", InputKind::Image),
        ],
        passes: 1,
        body: String::new(),
    }
}

fn word(p: &Params, name: &str, k: usize) -> u32 {
    let off = p.slot(name).expect("slot exists").offset + 4 * k;
    u32::from_le_bytes([p.data[off], p.data[off + 1], p.data[off + 2], p.data[off + 3]])
}

fn store() -> Params {
    let isf = shader();
    let l = layout(&isf);
    Params::new(&isf, l)
}

#[test]
fn new_writes_defaults() {
    let p = store();
    assert_eq!(p.data.len(), 96);
    assert_eq!(word(&p, "speed", 0), bits(0.25));
    assert_eq!(
        (word(&p, "tint", 0), word(&p, "tint", 1), word(&p, "tint", 2), word(&p, "tint", 3)),
        (bits(1.0), bits(0.5), 0, bits(1.0))
    );
    assert_eq!((word(&p, "pos", 0), word(&p, "pos", 1)), (bits(0.5), bits(0.25)));
    assert_eq!(word(&p, "on", 0), 1);
    assert_eq!(word(&p, "hit", 0), 0);
    assert_eq!(word(&p, "n", 0) as i32, -7);
    assert_eq!(word(&p, "TIME", 0), 0);
    assert!(p.slot("img").is_none());
    assert_eq!(p.event_slots.len(), 1);
    assert!(p.pending_events.is_empty());
}

#[test]
fn set_floats_reads_back() {
    let mut p = store();
    assert!(p.set_floats("speed", &[bits(0.75), bits(9.0)]));
    assert_eq!(word(&p, "speed", 0), bits(0.75));
    assert!(p.set_floats("n", &[bits(2.5)]));
    assert_eq!(word(&p, "n", 0) as i32, 3);
    assert!(p.set_floats("n", &[bits(-2.5)]));
    assert_eq!(word(&p, "n", 0) as i32, -3);
    assert!(p.set_floats("pos", &[bits(0.1)]));
    assert_eq!((word(&p, "pos", 0), word(&p, "pos", 1)), (bits(0.1), bits(0.25)));
}

#[test]
fn color_with_three_values_gets_opaque_alpha() {
    let mut p = store();
    assert!(p.set_floats("tint", &[bits(0.2), bits(0.3), bits(0.4), bits(0.5)]));
    assert_eq!(word(&p, "tint", 3), bits(0.5));
    assert!(p.set_floats("tint", &[bits(0.6), bits(0.7), bits(0.8)]));
    assert_eq!(
        (word(&p, "tint", 0), word(&p, "tint", 1), word(&p, "tint", 2), word(&p, "tint", 3)),
        (bits(0.6), bits(0.7), bits(0.8), bits(1.0))
    );
}

#[test]
fn unknown_name_changes_nothing() {
    let mut p = store();
    let before = p.data.clone();
    assert!(!p.set_floats("nope", &[bits(1.0)]));
    assert!(!p.set_floats("img", &[bits(1.0)]));
    assert_eq!(p.data, before);
}

#[test]
fn setting_one_slot_keeps_the_others() {
    let mut p = store();
    let before = p.data.clone();
    let off = p.slot("speed").unwrap().offset;
    assert!(p.set_floats("speed", &[bits(-4.0)]));
    for (i, (a, b)) in before.iter().zip(p.data.iter()).enumerate() {
        if i < off || i >= off + 4 {
            assert_eq!(a, b, "byte {i}");
        }
    }
}

#[test]
fn events_are_one_shot() {
    let mut p = store();
    assert!(p.set_floats("hit", &[bits(1.0)]));
    assert_eq!(word(&p, "hit", 0), 1);
    assert_eq!(p.pending_events.len(), 1);
    p.end_frame();
    assert_eq!(word(&p, "hit", 0), 0);
    assert!(p.pending_events.is_empty());
    // a zero does not fire
    assert!(p.set_floats("hit", &[0]));
    assert!(p.pending_events.is_empty());
    assert_eq!(word(&p, "hit", 0), 0);
    // any nonzero value fires, also one that rounds to zero
    assert!(p.set_floats("hit", &[bits(0.3)]));
    assert_eq!(word(&p, "hit", 0), 1);
    assert_eq!(p.pending_events.len(), 1);
    p.end_frame();
    assert!(p.set_floats("hit", &[bits(-7.0)]));
    assert_eq!(word(&p, "hit", 0), 1);
    p.end_frame();
    assert_eq!(word(&p, "hit", 0), 0);
    // a bool is no event: it stays set
    assert!(p.set_floats("on", &[bits(1.0)]));
    p.end_frame();
    assert_eq!(word(&p, "on", 0), 1);
}

#[test]
fn date_of_known_days() {
    let d = |y: f32, m: f32, day: f32, s: f32| vec![bits(y), bits(m), bits(day), bits(s)];
    assert_eq!(date_vec4(0), d(1970.0, 1.0, 1.0, 0.0));
    assert_eq!(date_vec4(86_399), d(1970.0, 1.0, 1.0, 86_399.0));
    assert_eq!(date_vec4(951_782_400), d(2000.0, 2.0, 29.0, 0.0));
    assert_eq!(date_vec4(951_868_799), d(2000.0, 2.0, 29.0, 86_399.0));
    assert_eq!(date_vec4(1_700_000_000), d(2023.0, 11.0, 14.0, 80_000.0));
    assert_eq!(date_vec4(4_102_444_800), d(2100.0, 1.0, 1.0, 0.0));
}

#[test]
fn set_frame_writes_the_builtins() {
    let mut p = store();
    p.set_frame(1920, 1080, bits(2.5), bits(0.5), 42, 0, 951_782_400);
    assert_eq!((word(&p, "RENDERSIZE", 0), word(&p, "RENDERSIZE", 1)), (bits(1920.0), bits(1080.0)));
    assert_eq!(word(&p, "TIME", 0), bits(2.5));
    assert_eq!(word(&p, "TIMEDELTA", 0), bits(0.5));
    assert_eq!(word(&p, "FRAMEINDEX", 0), 42);
    assert_eq!(word(&p, "PASSINDEX", 0), 0);
    assert_eq!(
        (word(&p, "DATE", 0), word(&p, "DATE", 1), word(&p, "DATE", 2), word(&p, "DATE", 3)),
        (bits(2000.0), bits(2.0), bits(29.0), 0)
    );
}

fn msg(addr: &str, args: Vec<OscArg>) -> Message {
    Message { addr: addr.to_string(), args }
}

#[test]
fn osc_arguments_as_floats() {
    assert_eq!(to_f32(&OscArg::Float(bits(0.3))), Some(bits(0.3)));
    assert_eq!(to_f32(&OscArg::Double(0.1f64.to_bits())), Some((0.1f64 as f32).to_bits()));
    assert_eq!(to_f32(&OscArg::Int(-5)), Some(bits(-5.0)));
    assert_eq!(to_f32(&OscArg::Long(16_777_217)), Some(bits(16_777_216.0)));
    assert_eq!(to_f32(&OscArg::Bool(true)), Some(bits(1.0)));
    assert_eq!(to_f32(&OscArg::Bool(false)), Some(0));
    assert_eq!(to_f32(&OscArg::Nil), Some(bits(1.0)));
    assert_eq!(to_f32(&OscArg::Other), None);
}

#[test]
fn osc_address_sets_input() {
    let mut p = store();
    assert_eq!(PREFIX, "/vlfo/");
    assert_eq!(apply(&msg("/vlfo/speed", vec![OscArg::Float(bits(0.9))]), &mut p), Some(true));
    assert_eq!(word(&p, "speed", 0), bits(0.9));
    assert_eq!(
        apply(&msg("/vlfo/tint", vec![OscArg::Other, OscArg::Int(0), OscArg::Float(bits(0.5)), OscArg::Bool(true)]), &mut p),
        Some(true)
    );
    assert_eq!(
        (word(&p, "tint", 0), word(&p, "tint", 1), word(&p, "tint", 2), word(&p, "tint", 3)),
        (0, bits(0.5), bits(1.0), bits(1.0))
    );
}

#[test]
fn osc_bang_and_foreign_addresses() {
    let mut p = store();
    assert_eq!(apply(&msg("/vlfo/hit", vec![]), &mut p), Some(true));
    assert_eq!(word(&p, "hit", 0), 1);
    assert_eq!(p.pending_events.len(), 1);
    let before = p.data.clone();
    assert_eq!(apply(&msg("/other/speed", vec![OscArg::Float(bits(0.1))]), &mut p), None);
    assert_eq!(apply(&msg("/vlfo", vec![]), &mut p), None);
    assert_eq!(apply(&msg("/vlfo/missing", vec![OscArg::Int(1)]), &mut p), Some(false));
    assert_eq!(p.data, before);
}

#[test]
fn osc_bundles_apply_in_order() {
    let mut p = store();
    let inner = Packet::Bundle(vec![
        Packet::Message(msg("/vlfo/speed", vec![OscArg::Float(bits(0.1))])),
        Packet::Message(msg("/vlfo/n", vec![OscArg::Int(4)])),
    ]);
    let outer = Packet::Bundle(vec![inner, Packet::Message(msg("/vlfo/speed", vec![OscArg::Float(bits(0.2))]))]);
    handle(&outer, &mut p);
    assert_eq!(word(&p, "speed", 0), bits(0.2));
    assert_eq!(word(&p, "n", 0), 4);
}

fn encode(addr: &str, args: Vec<rosc::OscType>) -> Vec<u8> {
    rosc::encoder::encode(&rosc::OscPacket::Message(rosc::OscMessage { addr: addr.to_string(), args })).unwrap()
}

#[test]
fn datagrams_are_decoded_and_applied() {
    let mut p = store();
    let bytes = encode("/vlfo/speed", vec![rosc::OscType::Double(0.1)]);
    assert!(receive(&bytes, &mut p).is_ok());
    assert_eq!(word(&p, "speed", 0), (0.1f64 as f32).to_bits());
    let bytes = encode("/vlfo/tint", vec![rosc::OscType::Float(0.25), rosc::OscType::String("x".into()), rosc::OscType::Int(1), rosc::OscType::Long(0)]);
    assert!(receive(&bytes, &mut p).is_ok());
    assert_eq!(
        (word(&p, "tint", 0), word(&p, "tint", 1), word(&p, "tint", 2), word(&p, "tint", 3)),
        (bits(0.25), bits(1.0), 0, bits(1.0))
    );
    let bytes = encode("/vlfo/n", vec![rosc::OscType::Nil, rosc::OscType::Bool(false)]);
    assert!(receive(&bytes, &mut p).is_ok());
    assert_eq!(word(&p, "n", 0), 1);
    let bundle = rosc::encoder::encode(&rosc::OscPacket::Bundle(rosc::OscBundle {
        timetag: rosc::OscTime { seconds: 0, fractional: 1 },
        content: vec![
            rosc::OscPacket::Message(rosc::OscMessage { addr: "/vlfo/speed".into(), args: vec![rosc::OscType::Int(3)] }),
            rosc::OscPacket::Message(rosc::OscMessage { addr: "/vlfo/hit".into(), args: vec![] }),
        ],
    }))
    .unwrap();
    assert!(receive(&bundle, &mut p).is_ok());
    assert_eq!(word(&p, "speed", 0), bits(3.0));
    assert_eq!(word(&p, "hit", 0), 1);
    assert_eq!(p.pending_events.len(), 1);
}

#[test]
fn bad_datagrams_change_nothing() {
    let mut p = store();
    let before = p.data.clone();
    let junk = [1u8, 2, 3];
    let expected = rosc::decoder::decode_udp(&junk).unwrap_err().to_string();
    assert_eq!(receive(&junk, &mut p), Err(expected));
    assert_eq!(p.data, before);
}

#[test]
fn reload_keeps_values_of_inputs_that_still_exist() {
    let mut old = store();
    assert!(old.set_floats("speed", &[bits(0.9)]));
    assert!(old.set_floats("n", &[bits(5.0)]));
    assert!(old.set_floats("hit", &[bits(1.0)]));
    let isf = Isf {
        description: String::new(),
        credit: String::new(),
        categories: Vec::new(),
        inputs: vec![
            input("extra", InputKind::Float { default: bits(0.125), min: 0, max: bits(1.0) }),
            input("speed", InputKind::Float { default: bits(0.25), min: 0, max: bits(1.0) }),
            input("tint", InputKind::Point2D { default: Xy { x: bits(0.5), y: bits(0.5) } }),
            input("n", InputKind::Long { default: 0, min: 0, max: 9 }),
            input("hit", InputKind::Event),
        ],
        passes: 1,
        body: String::new(),
    };
    let l = layout(&isf);
    let p = old.migrate(&isf, l);
    assert_eq!(word(&p, "speed", 0), bits(0.9));
    assert_eq!(word(&p, "n", 0), 5);
    assert_eq!(word(&p, "extra", 0), bits(0.125));
    // same name, other kind: the new default
    assert_eq!((word(&p, "tint", 0), word(&p, "tint", 1)), (bits(0.5), bits(0.5)));
    // events are one-shot: a pending one does not carry over
    assert_eq!(word(&p, "hit", 0), 0);
    assert!(p.pending_events.is_empty());
    assert_eq!(p.event_slots.len(), 1);
}

#[test]
fn every_input_is_reachable_over_osc() {
    let isf = shader();
    let mut p = store();
    for i in &isf.inputs {
        let addr = format!("{PREFIX}{}", i.name);
        let expected = if i.kind == InputKind::Image { Some(false) } else { Some(true) };
        assert_eq!(apply(&msg(&addr, vec![OscArg::Int(1)]), &mut p), expected, "{addr}");
    }
}

#[test]
fn event_from_parsed_shader_fires_on_small_values() {
    let isf = vlfo::isf::parse(r#"/*{"INPUTS":[{"NAME":"go","TYPE":"event"}]}*/"#).unwrap();
    let mut p = Params::new(&isf, layout(&isf));
    assert_eq!(p.slot("go").unwrap().offset, 48);
    assert!(p.set_floats("go", &[bits(0.3)]));
    assert_ne!(&p.data[48..52], &[0, 0, 0, 0]);
    p.end_frame();
    assert_eq!(&p.data[48..52], &[0, 0, 0, 0]);
}
