//! GLSL 450 for an ISF file: a prelude that supplies what an ISF host is
//! expected to provide (the uniform block, `isf_FragNormCoord`,
//! `gl_FragColor`, the `IMG_*` macros), then the body with the legacy
//! declarations that GLSL 450 rejects commented out.
use vstd::prelude::*;
use crate::text::{
    chars_of, decimal, joined, lines, lines_of, push_chars, push_decimal, push_str, skip_ws,
    starts_with, string_of, trim_start, views,
};
use crate::isf::{Isf, InputKind, InputV, input_views};
use crate::layout::{Layout, SlotV, glsl_type, slot_views};

verus! {

// ---------------------------------------------------------------- body
/// `s` begins with `p`.
pub open spec fn begins(s: Seq<char>, p: Seq<char>) -> bool {
    p.len() <= s.len() && s.take(p.len() as int) == p
}

/// A body line as emitted: `varying`, `precision` and `#version` lines
/// (after leading whitespace) are commented out, the rest kept.
pub open spec fn sanitize_line(l: Seq<char>) -> Seq<char> {
    let t = trim_start(l);
    if begins(t, "varying "@) || begins(t, "precision "@) || begins(t, "#version"@) {
        "// vlfo: dropped: "@ + l
    } else {
        l
    }
}

/// The body's lines, sanitized, joined by `\n`.
pub open spec fn sanitized(body: Seq<char>) -> Seq<char> {
    joined(lines(body).map_values(|l: Seq<char>| sanitize_line(l)), "\n"@)
}

fn push_sanitized_line(out: &mut Vec<char>, l: &Vec<char>)
    ensures
        final(out)@ == old(out)@ + sanitize_line(l@),
{
    let a = skip_ws(l);
    let t = crate::text::copy_range(l, a, l.len());
    assert(t@ =~= l@.skip(a as int));
    let v = chars_of("varying ");
    let p = chars_of("precision ");
    let h = chars_of("#version");
    if starts_with(&t, &v) || starts_with(&t, &p) || starts_with(&t, &h) {
        push_str(out, "// vlfo: dropped: ");
    }
    push_chars(out, l);
}

/// Drops legacy declarations that GLSL 450 rejects and the prelude already
/// covers: `varying ...;`, `precision ...;`, and stray `#version` lines.
pub fn sanitize_body(body: &str) -> (r: String)
    ensures
        r@ == sanitized(body@),
{
    let b = chars_of(body);
    let ls = lines_of(&b);
    let ghost items = lines(body@).map_values(|l: Seq<char>| sanitize_line(l));
    let mut out: Vec<char> = Vec::new();
    let mut i: usize = 0;
    while i < ls.len()
        invariant
            i <= ls.len(),
            views(ls@) == lines(body@),
            items == lines(body@).map_values(|l: Seq<char>| sanitize_line(l)),
            out@ == joined(items.take(i as int), "\n"@),
        decreases ls.len() - i,
    {
        if i > 0 {
            push_str(&mut out, "\n");
        }
        push_sanitized_line(&mut out, &ls[i]);
        assert(items[i as int] == sanitize_line(ls@[i as int]@));
        i = i + 1;
        assert(items.take(i as int).drop_last() =~= items.take(i - 1));
        if i == 1 {
            assert(items.take(1) =~= seq![items[0]]);
        }
        assert(out@ =~= joined(items.take(i as int), "\n"@));
    }
    assert(items.take(ls.len() as int) =~= items);
    string_of(&out)
}

// ---------------------------------------------------------------- prelude
pub open spec fn member_line(s: SlotV) -> Seq<char> {
    "    "@ + glsl_type(s.kind) + " "@ + s.member + ";\n"@
}

pub open spec fn members_text(ss: Seq<SlotV>) -> Seq<char>
    decreases ss.len(),
{
    if ss.len() == 0 {
        Seq::empty()
    } else {
        members_text(ss.drop_last()) + member_line(ss.last())
    }
}

pub open spec fn is_flag(k: InputKind) -> bool {
    match k {
        InputKind::Bool { .. } | InputKind::Event => true,
        _ => false,
    }
}

/// `#define NAME (NAME_vlfo_i != 0)` for each boolean and event input.
pub open spec fn flag_defines(ins: Seq<InputV>) -> Seq<char>
    decreases ins.len(),
{
    if ins.len() == 0 {
        Seq::empty()
    } else {
        flag_defines(ins.drop_last()) + if is_flag(ins.last().kind) {
            "#define "@ + ins.last().name + " ("@ + ins.last().name + "_vlfo_i != 0)\n"@
        } else {
            Seq::empty()
        }
    }
}

/// The texture, sampler and combining macro of the `i`-th image input, on
/// bindings `2i+1` and `2i+2`.
pub open spec fn image_binding(name: Seq<char>, i: nat) -> Seq<char> {
    "layout(set = 0, binding = "@ + decimal(1 + 2 * i) + ") uniform texture2D "@ + name
        + "_vlfo_tex;\n"@ + "layout(set = 0, binding = "@ + decimal(2 + 2 * i)
        + ") uniform sampler "@ + name + "_vlfo_smp;\n"@ + "#define "@ + name + " sampler2D("@
        + name + "_vlfo_tex, "@ + name + "_vlfo_smp)\n"@
}

pub open spec fn images(ins: Seq<InputV>) -> Seq<InputV> {
    ins.filter(|i: InputV| i.kind == InputKind::Image)
}

pub open spec fn image_bindings(imgs: Seq<InputV>) -> Seq<char>
    decreases imgs.len(),
{
    if imgs.len() == 0 {
        Seq::empty()
    } else {
        image_bindings(imgs.drop_last()) + image_binding(
            imgs.last().name,
            (imgs.len() - 1) as nat,
        )
    }
}

/// The image inputs are declared in input order, the `i`-th one on texture
/// binding `2i+1` and sampler binding `2i+2`: no two declarations share a
/// binding, and none takes binding 0, the uniform block's.
pub proof fn lemma_image_binding_numbers(imgs: Seq<InputV>, i: int, j: int)
    requires
        0 <= i < imgs.len(),
        0 <= j < imgs.len(),
    ensures
        image_bindings(imgs.take(i + 1)) == image_bindings(imgs.take(i))
            + "layout(set = 0, binding = "@ + decimal((2 * i + 1) as nat)
            + ") uniform texture2D "@ + imgs[i].name + "_vlfo_tex;\n"@
            + "layout(set = 0, binding = "@ + decimal((2 * i + 2) as nat)
            + ") uniform sampler "@ + imgs[i].name + "_vlfo_smp;\n"@ + "#define "@ + imgs[i].name
            + " sampler2D("@ + imgs[i].name + "_vlfo_tex, "@ + imgs[i].name + "_vlfo_smp)\n"@,
        decimal((2 * i + 1) as nat) != decimal(0),
        decimal((2 * i + 2) as nat) != decimal(0),
        decimal((2 * i + 1) as nat) != decimal((2 * j + 2) as nat),
        i != j ==> decimal((2 * i + 1) as nat) != decimal((2 * j + 1) as nat),
        i != j ==> decimal((2 * i + 2) as nat) != decimal((2 * j + 2) as nat),
{
    let t = imgs.take(i + 1);
    assert(t.drop_last() =~= imgs.take(i));
    assert(t.last() == imgs[i]);
    crate::text::lemma_decimal_injective((2 * i + 1) as nat, 0);
    crate::text::lemma_decimal_injective((2 * i + 2) as nat, 0);
    crate::text::lemma_decimal_injective((2 * i + 1) as nat, (2 * j + 2) as nat);
    crate::text::lemma_decimal_injective((2 * i + 1) as nat, (2 * j + 1) as nat);
    crate::text::lemma_decimal_injective((2 * i + 2) as nat, (2 * j + 2) as nat);
}

pub open spec fn prelude_head() -> Seq<char> {
    "#version 450\n"@ + "layout(location = 0) out vec4 vlfo_fragColor;\n"@
        + "#define gl_FragColor vlfo_fragColor\n"@
        + "layout(set = 0, binding = 0) uniform VlfoIsf {\n"@
}

pub open spec fn prelude_macros() -> Seq<char> {
    "#define isf_FragNormCoord (vec2(gl_FragCoord.x / RENDERSIZE.x, 1.0 - gl_FragCoord.y / RENDERSIZE.y))\n#define vv_FragNormCoord isf_FragNormCoord\n#define texture2D texture\n#define texture2DRect texture\n#define IMG_NORM_PIXEL(img, c) texture(img, (c))\n#define IMG_PIXEL(img, c) texture(img, (c) / vec2(textureSize(img, 0)))\n#define IMG_THIS_PIXEL(img) texture(img, isf_FragNormCoord)\n#define IMG_THIS_NORM_PIXEL(img) texture(img, isf_FragNormCoord)\n#define IMG_SIZE(img) vec2(textureSize(img, 0))\n#line 1\n"@
}

/// The complete GLSL 450 fragment shader.
pub open spec fn glsl_text(isf: IsfV_, ss: Seq<SlotV>) -> Seq<char> {
    prelude_head() + members_text(ss) + "};\n"@ + flag_defines(isf.0) + image_bindings(
        images(isf.0),
    ) + prelude_macros() + sanitized(isf.1)
}

/// The parts of an ISF file that its GLSL depends on: inputs and body.
pub type IsfV_ = (Seq<InputV>, Seq<char>);

fn push_image_binding(out: &mut Vec<char>, name: &str, j: usize)
    ensures
        final(out)@ == old(out)@ + image_binding(name@, j as nat),
{
        push_str(out, "layout(set = 0, binding = ");
        push_decimal(out, 1 + 2 * j as u128);
        push_str(out, ") uniform texture2D ");
        push_str(out, name);
        push_str(out, "_vlfo_tex;\n");
        push_str(out, "layout(set = 0, binding = ");
        push_decimal(out, 2 + 2 * j as u128);
        push_str(out, ") uniform sampler ");
        push_str(out, name);
        push_str(out, "_vlfo_smp;\n");
        push_str(out, "#define ");
        push_str(out, name);
        push_str(out, " sampler2D(");
        push_str(out, name);
        push_str(out, "_vlfo_tex, ");
        push_str(out, name);
        push_str(out, "_vlfo_smp)\n");
    assert(out@ =~= old(out)@ + image_binding(name@, j as nat));
}

/// Generate the complete GLSL 450 fragment shader for naga.
pub fn generate_glsl(isf: &Isf, layout: &Layout) -> (r: String)
    ensures
        r@ == glsl_text((input_views(isf.inputs@), isf.body@), slot_views(layout.slots@)),
{
    let mut out: Vec<char> = Vec::new();
    push_str(&mut out, "#version 450\n");
    push_str(&mut out, "layout(location = 0) out vec4 vlfo_fragColor;\n");
    push_str(&mut out, "#define gl_FragColor vlfo_fragColor\n");
    push_str(&mut out, "layout(set = 0, binding = 0) uniform VlfoIsf {\n");
    let ghost ss = slot_views(layout.slots@);
    let ghost s0 = out@;
    let mut i: usize = 0;
    while i < layout.slots.len()
        invariant
            i <= layout.slots.len(),
            ss == slot_views(layout.slots@),
            out@ == s0 + members_text(ss.take(i as int)),
        decreases layout.slots.len() - i,
    {
        push_str(&mut out, "    ");
        push_str(&mut out, layout.slots[i].kind.glsl());
        push_str(&mut out, " ");
        push_str(&mut out, layout.slots[i].member.as_str());
        push_str(&mut out, ";\n");
        i = i + 1;
        assert(ss.take(i as int).drop_last() =~= ss.take(i - 1));
        assert(out@ =~= s0 + members_text(ss.take(i as int)));
    }
    assert(ss.take(layout.slots.len() as int) =~= ss);
    push_str(&mut out, "};\n");
    let ghost ins = input_views(isf.inputs@);
    let ghost s1 = out@;
    let mut k: usize = 0;
    while k < isf.inputs.len()
        invariant
            k <= isf.inputs.len(),
            ins == input_views(isf.inputs@),
            out@ == s1 + flag_defines(ins.take(k as int)),
        decreases isf.inputs.len() - k,
    {
        let inp = &isf.inputs[k];
        match inp.kind {
            InputKind::Bool { .. } | InputKind::Event => {
                push_str(&mut out, "#define ");
                push_str(&mut out, inp.name.as_str());
                push_str(&mut out, " (");
                push_str(&mut out, inp.name.as_str());
                push_str(&mut out, "_vlfo_i != 0)\n");
            },
            _ => {},
        }
        k = k + 1;
        assert(ins.take(k as int).drop_last() =~= ins.take(k - 1));
        assert(out@ =~= s1 + flag_defines(ins.take(k as int)));
    }
    assert(ins.take(isf.inputs.len() as int) =~= ins);
    let imgs = isf.image_inputs();
    let ghost iv = imgs@.map_values(|i: &crate::isf::Input| i@);
    proof {
        ins.lemma_filter_len(|i: InputV| i.kind == InputKind::Image);
    }
    let ghost s2 = out@;
    let mut j: usize = 0;
    while j < imgs.len()
        invariant
            j <= imgs.len(),
            iv == imgs@.map_values(|i: &crate::isf::Input| i@),
            iv == images(ins),
            out@ == s2 + image_bindings(iv.take(j as int)),
        decreases imgs.len() - j,
    {
        push_image_binding(&mut out, imgs[j].name.as_str(), j);
        j = j + 1;
        assert(iv.take(j as int).drop_last() =~= iv.take(j - 1));
        assert(iv.take(j as int).last() == iv[j - 1]);
        assert(out@ =~= s2 + image_bindings(iv.take(j as int)));
    }
    assert(iv.take(imgs.len() as int) =~= iv);
    push_str(
        &mut out,
        "#define isf_FragNormCoord (vec2(gl_FragCoord.x / RENDERSIZE.x, 1.0 - gl_FragCoord.y / RENDERSIZE.y))\n#define vv_FragNormCoord isf_FragNormCoord\n#define texture2D texture\n#define texture2DRect texture\n#define IMG_NORM_PIXEL(img, c) texture(img, (c))\n#define IMG_PIXEL(img, c) texture(img, (c) / vec2(textureSize(img, 0)))\n#define IMG_THIS_PIXEL(img) texture(img, isf_FragNormCoord)\n#define IMG_THIS_NORM_PIXEL(img) texture(img, isf_FragNormCoord)\n#define IMG_SIZE(img) vec2(textureSize(img, 0))\n#line 1\n",
    );
    let body = sanitize_body(isf.body.as_str());
    push_str(&mut out, body.as_str());
    assert(out@ =~= glsl_text((ins, isf.body@), ss));
    string_of(&out)
}

} // verus!
