//! ISF (Interactive Shader Format) headers.
//!
//! An ISF file is a GLSL fragment shader with a JSON header in a leading
//! `/*{ ... }*/` comment. This module finds the header, relaxes it for
//! trailing commas, and reads the description, categories, inputs and pass
//! count out of the parsed JSON. Float values are carried as `f32` bits.
use vstd::prelude::*;
use crate::text::{chars_of, copy_range, eq_str, is_whitespace, is_ws, string_of, trim, trim_chars, push_str, quoted, debug_quoted};
use crate::json::{
    parse_json, parsed_json,
    Json, JsonNumber, get, get_member, as_str, as_number, as_array, str_of, number_of,
};
use crate::floatbits::{ONE, HALF, f32_of_f64, i32_of_f64, f64_nonzero, f64_to_f32, f64_to_i32, is_nonzero_f64};

verus! {

/// Four `f32` components, as bits.
#[derive(Debug, Clone, Copy, PartialEq, Eq, Structural)]
pub struct Rgba {
    pub r: u32,
    pub g: u32,
    pub b: u32,
    pub a: u32,
}

/// Two `f32` components, as bits.
#[derive(Debug, Clone, Copy, PartialEq, Eq, Structural)]
pub struct Xy {
    pub x: u32,
    pub y: u32,
}

/// What an input is and its declared values (`f32` as bits).
#[derive(Debug, Clone, Copy, PartialEq, Eq, Structural)]
#[allow(inconsistent_fields)]
pub enum InputKind {
    Float { default: u32, min: u32, max: u32 },
    Bool { default: bool },
    Event,
    Long { default: i32, min: i32, max: i32 },
    Color { default: Rgba },
    Point2D { default: Xy },
    Image,
}

/// A declared ISF input.
#[derive(Debug, Clone)]
pub struct Input {
    pub name: String,
    pub label: Option<String>,
    pub kind: InputKind,
}

pub struct InputV {
    pub name: Seq<char>,
    pub label: Option<Seq<char>>,
    pub kind: InputKind,
}

impl View for Input {
    type V = InputV;

    open spec fn view(&self) -> InputV {
        InputV {
            name: self.name@,
            label: match &self.label {
                Some(l) => Some(l@),
                None => None,
            },
            kind: self.kind,
        }
    }
}

/// A parsed ISF file.
#[derive(Debug, Clone)]
pub struct Isf {
    pub description: String,
    pub credit: String,
    pub categories: Vec<String>,
    pub inputs: Vec<Input>,
    pub passes: usize,
    /// GLSL body with the header comment removed.
    pub body: String,
}

pub struct IsfV {
    pub description: Seq<char>,
    pub credit: Seq<char>,
    pub categories: Seq<Seq<char>>,
    pub inputs: Seq<InputV>,
    pub passes: nat,
    pub body: Seq<char>,
}

pub open spec fn input_views(v: Seq<Input>) -> Seq<InputV> {
    v.map_values(|i: Input| i@)
}

impl View for Isf {
    type V = IsfV;

    open spec fn view(&self) -> IsfV {
        IsfV {
            description: self.description@,
            credit: self.credit@,
            categories: self.categories@.map_values(|s: String| s@),
            inputs: input_views(self.inputs@),
            passes: self.passes as nat,
            body: self.body@,
        }
    }
}

/// Why an ISF source does not parse.
#[derive(Debug)]
pub enum IsfError {
    /// No `/*` in the source.
    NoHeaderComment,
    /// `/*` without a later `*/`.
    UnterminatedHeader,
    /// An input object without a string `NAME`.
    InputWithoutName,
    /// An input whose `TYPE` is not one ISF defines: name, type.
    UnsupportedType(String, String),
    /// The header is not JSON, even without trailing commas: the parser's
    /// message.
    BadJson(String),
}

pub enum IsfErrorV {
    NoHeaderComment,
    UnterminatedHeader,
    InputWithoutName,
    UnsupportedType(Seq<char>, Seq<char>),
    BadJson(Seq<char>),
}

impl View for IsfError {
    type V = IsfErrorV;

    open spec fn view(&self) -> IsfErrorV {
        match self {
            IsfError::NoHeaderComment => IsfErrorV::NoHeaderComment,
            IsfError::UnterminatedHeader => IsfErrorV::UnterminatedHeader,
            IsfError::InputWithoutName => IsfErrorV::InputWithoutName,
            IsfError::UnsupportedType(a, b) => IsfErrorV::UnsupportedType(a@, b@),
            IsfError::BadJson(m) => IsfErrorV::BadJson(m@),
        }
    }
}

impl Isf {
    /// The image inputs, in declaration order.
    pub fn image_inputs(&self) -> (r: Vec<&Input>)
        ensures
            r@.map_values(|i: &Input| i@) == input_views(self.inputs@).filter(
                |i: InputV| i.kind == InputKind::Image,
            ),
    {
        let mut r: Vec<&Input> = Vec::new();
        let ghost all = input_views(self.inputs@);
        let ghost pred = |i: InputV| i.kind == InputKind::Image;
        let mut k: usize = 0;
        while k < self.inputs.len()
            invariant
                k <= self.inputs.len(),
                all == input_views(self.inputs@),
                pred == (|i: InputV| i.kind == InputKind::Image),
                r@.map_values(|i: &Input| i@) == all.take(k as int).filter(pred),
            decreases self.inputs.len() - k,
        {
            let ghost old_r = r@.map_values(|i: &Input| i@);
            assert(all.take(k + 1).drop_last() =~= all.take(k as int));
            reveal_with_fuel(Seq::filter, 1);
            if self.inputs[k].kind == InputKind::Image {
                r.push(&self.inputs[k]);
                assert(r@.map_values(|i: &Input| i@) =~= old_r.push(all[k as int]));
            } else {
                assert(r@.map_values(|i: &Input| i@) =~= old_r);
            }
            k = k + 1;
        }
        assert(all.take(self.inputs.len() as int) =~= all);
        r
    }
}

// ---------------------------------------------------------------- header comment
/// Index of the first `a` immediately followed by `b`, or `s.len()`.
pub open spec fn find_pair(s: Seq<char>, a: char, b: char) -> nat
    decreases s.len(),
{
    if s.len() < 2 {
        s.len()
    } else if s[0] == a && s[1] == b {
        0
    } else {
        1 + find_pair(s.drop_first(), a, b)
    }
}

proof fn lemma_find_pair(s: Seq<char>, a: char, b: char, i: int)
    requires
        0 <= i <= s.len(),
        forall|j: int| 0 <= j < i && j + 1 < s.len() ==> !(#[trigger] s[j] == a && s[j + 1] == b),
        i == s.len() || (i + 1 < s.len() && s[i] == a && s[i + 1] == b) || (i + 1 == s.len()),
    ensures
        find_pair(s, a, b) == if i + 1 < s.len() {
            i as nat
        } else {
            s.len()
        },
    decreases s.len(),
{
    if s.len() >= 2 && i > 0 {
        assert forall|j: int| 0 <= j < i - 1 && j + 1 < s.drop_first().len() implies !(
        #[trigger] s.drop_first()[j] == a && s.drop_first()[j + 1] == b) by {
            assert(s.drop_first()[j] == s[j + 1]);
            assert(s.drop_first()[j + 1] == s[j + 2]);
        }
        lemma_find_pair(s.drop_first(), a, b, i - 1);
    }
}

fn find_pair_in(s: &Vec<char>, from: usize, a: char, b: char) -> (r: usize)
    requires
        from <= s.len(),
    ensures
        r - from == find_pair(s@.skip(from as int), a, b),
        from <= r <= s.len(),
        r == s.len() || (r + 1 < s.len() && s@[r as int] == a && s@[r + 1] == b),
{
    let mut i = from;
    while s.len() > 0 && i < s.len() - 1 && !(s[i] == a && s[i + 1] == b)
        invariant
            from <= i <= s.len(),
            forall|j: int| from <= j < i && j + 1 < s.len() ==> !(#[trigger] s@[j] == a && s@[j + 1] == b),
        decreases s.len() - i,
    {
        i = i + 1;
    }
    let ghost t = s@.skip(from as int);
    proof {
        assert forall|j: int| 0 <= j < i - from && j + 1 < t.len() implies !(#[trigger] t[j] == a
            && t[j + 1] == b) by {
            assert(t[j] == s@[from + j]);
            assert(t[j + 1] == s@[from + j + 1]);
        }
        if i + 1 < s.len() {
            assert(t[i - from] == s@[i as int]);
            assert(t[i - from + 1] == s@[i + 1]);
        }
        lemma_find_pair(t, a, b, i - from);
    }
    if s.len() > 0 && i < s.len() - 1 {
        i
    } else {
        s.len()
    }
}

/// Where the header comment starts: the first `/*` (`src.len()` when there
/// is none).
pub open spec fn header_start(src: Seq<char>) -> nat {
    find_pair(src, '/', '*')
}

/// Where the comment closes, counted from just after its `/*`: the first
/// `*/` that follows the opening two characters, as C comments close.
pub open spec fn header_end(src: Seq<char>) -> nat {
    find_pair(src.skip(header_start(src) + 2 as int), '*', '/')
}

/// `split_header`: the trimmed text between the first `/*` and the first
/// `*/` after it, and everything after that `*/`.
pub open spec fn header_split(src: Seq<char>) -> Result<(Seq<char>, Seq<char>), IsfErrorV> {
    let s = header_start(src);
    let e = header_end(src);
    if s >= src.len() {
        Err(IsfErrorV::NoHeaderComment)
    } else if e >= src.len() - s - 2 {
        Err(IsfErrorV::UnterminatedHeader)
    } else {
        Ok((trim(src.subrange((s + 2) as int, (s + 2 + e) as int)), src.skip((s + 2 + e + 2) as int)))
    }
}

/// Split an ISF source into (header json, body).
pub fn split_header(src: &str) -> (r: Result<(String, String), IsfError>)
    ensures
        match header_split(src@) {
            Ok((h, b)) => r matches Ok((x, y)) && x@ == h && y@ == b,
            Err(e) => r matches Err(x) && x@ == e,
        },
{
    let s = chars_of(src);
    let start = find_pair_in(&s, 0, '/', '*');
    assert(s@.skip(0) =~= s@);
    if start >= s.len() {
        return Err(IsfError::NoHeaderComment);
    }
    let end = find_pair_in(&s, start + 2, '*', '/');
    if end >= s.len() {
        return Err(IsfError::UnterminatedHeader);
    }
    let hv = copy_range(&s, start + 2, end);
    let header = trim_chars(&hv);
    let body = copy_range(&s, end + 2, s.len());
    assert(body@ =~= s@.skip(end + 2));
    Ok((string_of(&header), string_of(&body)))
}

// ---------------------------------------------------------------- trailing commas
/// The first index at or after `j` that is not whitespace, or `s.len()`.
pub open spec fn next_solid(s: Seq<char>, j: int) -> int
    decreases s.len() - j,
{
    if j >= s.len() {
        s.len() as int
    } else if !is_ws(s[j]) {
        j
    } else {
        next_solid(s, j + 1)
    }
}

/// A `,` whose next non-whitespace character closes an object or array.
pub open spec fn trailing_comma(s: Seq<char>, i: int) -> bool {
    s[i] == ',' && {
        let j = next_solid(s, i + 1);
        j < s.len() && (s[j] == '}' || s[j] == ']')
    }
}

/// The first `n` characters of `s` without their trailing commas.
pub open spec fn kept(s: Seq<char>, n: int) -> Seq<char>
    decreases n,
{
    if n <= 0 {
        Seq::empty()
    } else if trailing_comma(s, n - 1) {
        kept(s, n - 1)
    } else {
        kept(s, n - 1).push(s[n - 1])
    }
}

/// `s` without the commas that only whitespace separates from a closing `}`
/// or `]`.
pub open spec fn without_trailing_commas(s: Seq<char>) -> Seq<char> {
    kept(s, s.len() as int)
}

fn next_solid_in(s: &Vec<char>, j: usize) -> (r: usize)
    requires
        j <= s.len(),
    ensures
        r == next_solid(s@, j as int),
    decreases s.len() - j,
{
    if j >= s.len() {
        s.len()
    } else if !is_whitespace(s[j]) {
        j
    } else {
        next_solid_in(s, j + 1)
    }
}

/// Some ISF headers in the wild have trailing commas; this strips them so
/// that a JSON parser can retry.
pub fn strip_trailing_commas(header: &str) -> (r: String)
    ensures
        r@ == without_trailing_commas(header@),
{
    let s = chars_of(header);
    let mut out: Vec<char> = Vec::new();
    let mut i: usize = 0;
    while i < s.len()
        invariant
            i <= s.len(),
            s@ == header@,
            out@ == kept(s@, i as int),
        decreases s.len() - i,
    {
        let c = s[i];
        let drop = if c == ',' {
            let j = next_solid_in(&s, i + 1);
            j < s.len() && (s[j] == '}' || s[j] == ']')
        } else {
            false
        };
        if !drop {
            out.push(c);
        }
        i = i + 1;
    }
    string_of(&out)
}

// ---------------------------------------------------------------- inputs
/// The `f32` bits of a number, or `dflt`.
pub open spec fn f32_or(v: Option<Json>, dflt: u32) -> u32 {
    match as_number(v) {
        Some(n) => f32_of_f64(n.bits),
        None => dflt,
    }
}

/// The `i32` of a number, or `dflt`.
pub open spec fn i32_or(v: Option<Json>, dflt: i32) -> i32 {
    match as_number(v) {
        Some(n) => i32_of_f64(n.bits),
        None => dflt,
    }
}

/// Element `i` of an array as `f32` bits, or `dflt`.
pub open spec fn f32_at(arr: Seq<Json>, i: int, dflt: u32) -> u32 {
    if i < arr.len() {
        f32_or(Some(arr[i]), dflt)
    } else {
        dflt
    }
}

/// The kind of an input of type `ty`, with the input object `v` and its
/// `DEFAULT` member `d`; `None` for a type ISF does not define.
pub open spec fn kind_of(ty: Seq<char>, v: Json, d: Option<Json>) -> Option<InputKind> {
    if ty == "float"@ {
        Some(
            InputKind::Float {
                default: f32_or(d, 0),
                min: f32_or(get(v, "MIN"@), 0),
                max: f32_or(get(v, "MAX"@), ONE),
            },
        )
    } else if ty == "bool"@ {
        Some(
            InputKind::Bool {
                default: match d {
                    Some(Json::Bool(b)) => b,
                    Some(Json::Number(n)) => f64_nonzero(n.bits),
                    _ => false,
                },
            },
        )
    } else if ty == "event"@ {
        Some(InputKind::Event)
    } else if ty == "long"@ {
        Some(
            InputKind::Long {
                default: i32_or(d, 0),
                min: i32_or(get(v, "MIN"@), 0),
                max: i32_or(get(v, "MAX"@), 1),
            },
        )
    } else if ty == "color"@ {
        Some(
            InputKind::Color {
                default: match d {
                    Some(Json::Array(a)) => Rgba { r: f32_at(a@, 0, ONE), g: f32_at(a@, 1, ONE), b: f32_at(a@, 2, ONE), a: f32_at(a@, 3, ONE) },
                    _ => Rgba { r: ONE, g: ONE, b: ONE, a: ONE },
                },
            },
        )
    } else if ty == "point2D"@ {
        Some(
            InputKind::Point2D {
                default: match d {
                    Some(Json::Array(a)) => Xy { x: f32_at(a@, 0, HALF), y: f32_at(a@, 1, HALF) },
                    _ => Xy { x: HALF, y: HALF },
                },
            },
        )
    } else if ty == "image"@ || ty == "audio"@ || ty == "audioFFT"@ {
        Some(InputKind::Image)
    } else {
        None
    }
}

/// An input object: `NAME` (required), `TYPE` (default `float`), `LABEL`,
/// and the values of its type.
pub open spec fn input_of(v: Json) -> Result<InputV, IsfErrorV> {
    match as_str(get(v, "NAME"@)) {
        None => Err(IsfErrorV::InputWithoutName),
        Some(name) => {
            let ty = match as_str(get(v, "TYPE"@)) {
                Some(t) => t,
                None => "float"@,
            };
            match kind_of(ty, v, get(v, "DEFAULT"@)) {
                None => Err(IsfErrorV::UnsupportedType(name, ty)),
                Some(kind) => Ok(InputV { name, label: as_str(get(v, "LABEL"@)), kind }),
            }
        },
    }
}

/// The `f32` bits of element `i` of a `DEFAULT` array when it is a number,
/// else `dflt`.
pub open spec fn component(a: Seq<Json>, i: int, dflt: u32) -> u32 {
    if 0 <= i < a.len() {
        match a[i] {
            Json::Number(n) => f32_of_f64(n.bits),
            _ => dflt,
        }
    } else {
        dflt
    }
}

/// A `point2D` input whose `DEFAULT` is an array takes its x from element 0
/// and its y from element 1, 0.5 where one is missing or not a number; a
/// `color` input takes component k from element k, 1.0 where missing.
pub proof fn lemma_array_defaults(v: Json, a: Seq<Json>)
    requires
        as_str(get(v, "NAME"@)) is Some,
        get(v, "DEFAULT"@) matches Some(Json::Array(d)) && d@ == a,
    ensures
        as_str(get(v, "TYPE"@)) == Some("point2D"@) ==> (input_of(v) matches Ok(i) && i.kind
            == (InputKind::Point2D {
            default: Xy { x: component(a, 0, HALF), y: component(a, 1, HALF) },
        })),
        as_str(get(v, "TYPE"@)) == Some("color"@) ==> (input_of(v) matches Ok(i) && i.kind
            == (InputKind::Color {
            default: Rgba {
                r: component(a, 0, ONE),
                g: component(a, 1, ONE),
                b: component(a, 2, ONE),
                a: component(a, 3, ONE),
            },
        })),
{
    reveal_strlit("float");
    reveal_strlit("bool");
    reveal_strlit("event");
    reveal_strlit("long");
    reveal_strlit("color");
    reveal_strlit("point2D");
    assert("color"@ != "float"@) by {
        assert("color"@[0] != "float"@[0]);
    }
    assert("color"@ != "event"@) by {
        assert("color"@[0] != "event"@[0]);
    }
    assert("point2D"@ != "float"@) by {
        assert("point2D"@.len() != "float"@.len());
    }
    assert("point2D"@ != "bool"@) by {
        assert("point2D"@.len() != "bool"@.len());
    }
    assert("point2D"@ != "event"@) by {
        assert("point2D"@.len() != "event"@.len());
    }
    assert("point2D"@ != "long"@) by {
        assert("point2D"@.len() != "long"@.len());
    }
    assert("point2D"@ != "color"@) by {
        assert("point2D"@.len() != "color"@.len());
    }
    assert("color"@ != "bool"@) by {
        assert("color"@.len() != "bool"@.len());
    }
    assert("color"@ != "long"@) by {
        assert("color"@.len() != "long"@.len());
    }
}

/// The `f32` bits of a member when it is a number, else `dflt`.
pub open spec fn number_or(m: Option<Json>, dflt: u32) -> u32 {
    match m {
        Some(Json::Number(n)) => f32_of_f64(n.bits),
        _ => dflt,
    }
}

/// The kinds of the scalar types: a `float` (also when `TYPE` is missing)
/// takes `DEFAULT`, `MIN` and `MAX`, else 0, 0 and 1.0; a `bool` is true for
/// `true` or a nonzero number; a `long` takes its numbers toward zero, else
/// 0, 0 and 1; `image`, `audio` and `audioFFT` are images; any other type is
/// refused with the input's name and the type.
pub proof fn lemma_scalar_kinds(v: Json, name: Seq<char>)
    requires
        as_str(get(v, "NAME"@)) == Some(name),
    ensures
        (as_str(get(v, "TYPE"@)) is None || as_str(get(v, "TYPE"@)) == Some("float"@)) ==> (input_of(
            v,
        ) matches Ok(i) && i.name == name && i.kind == (InputKind::Float {
            default: number_or(get(v, "DEFAULT"@), 0),
            min: number_or(get(v, "MIN"@), 0),
            max: number_or(get(v, "MAX"@), ONE),
        })),
        as_str(get(v, "TYPE"@)) == Some("bool"@) ==> (input_of(v) matches Ok(i) && i.kind == (
        InputKind::Bool {
            default: match get(v, "DEFAULT"@) {
                Some(Json::Bool(b)) => b,
                Some(Json::Number(n)) => f64_nonzero(n.bits),
                _ => false,
            },
        })),
        as_str(get(v, "TYPE"@)) == Some("event"@) ==> (input_of(v) matches Ok(i) && i.kind
            == InputKind::Event),
        as_str(get(v, "TYPE"@)) == Some("long"@) ==> (input_of(v) matches Ok(i) && i.kind == (
        InputKind::Long {
            default: match get(v, "DEFAULT"@) {
                Some(Json::Number(n)) => i32_of_f64(n.bits),
                _ => 0,
            },
            min: match get(v, "MIN"@) {
                Some(Json::Number(n)) => i32_of_f64(n.bits),
                _ => 0,
            },
            max: match get(v, "MAX"@) {
                Some(Json::Number(n)) => i32_of_f64(n.bits),
                _ => 1,
            },
        })),
        (as_str(get(v, "TYPE"@)) == Some("image"@) || as_str(get(v, "TYPE"@)) == Some("audio"@)
            || as_str(get(v, "TYPE"@)) == Some("audioFFT"@)) ==> (input_of(v) matches Ok(i)
            && i.kind == InputKind::Image),
        (as_str(get(v, "TYPE"@)) matches Some(t) && t != "float"@ && t != "bool"@ && t != "event"@
            && t != "long"@ && t != "color"@ && t != "point2D"@ && t != "image"@ && t != "audio"@
            && t != "audioFFT"@) ==> input_of(v) == Err::<InputV, IsfErrorV>(
            IsfErrorV::UnsupportedType(name, as_str(get(v, "TYPE"@))->0),
        ),
{
    reveal_strlit("float");
    reveal_strlit("bool");
    reveal_strlit("event");
    reveal_strlit("long");
    reveal_strlit("color");
    reveal_strlit("point2D");
    reveal_strlit("image");
    reveal_strlit("audio");
    reveal_strlit("audioFFT");
    assert("float"@ != "event"@) by {
        assert("float"@[0] != "event"@[0]);
    }
    assert("bool"@ != "long"@) by {
        assert("bool"@[0] != "long"@[0]);
    }
    assert("float"@ != "bool"@) by {
        assert("float"@.len() != "bool"@.len());
    }
    assert("float"@ != "long"@) by {
        assert("float"@.len() != "long"@.len());
    }
    assert("event"@ != "bool"@) by {
        assert("event"@.len() != "bool"@.len());
    }
    assert("event"@ != "long"@) by {
        assert("event"@.len() != "long"@.len());
    }
    assert("float"@ != "color"@) by {
        assert("float"@[0] != "color"@[0]);
    }
    assert("event"@ != "color"@) by {
        assert("event"@[0] != "color"@[0]);
    }
    assert("bool"@ != "color"@) by {
        assert("bool"@.len() != "color"@.len());
    }
    assert("long"@ != "color"@) by {
        assert("long"@.len() != "color"@.len());
    }
    assert("image"@ != "float"@) by {
        assert("image"@[0] != "float"@[0]);
    }
    assert("image"@ != "event"@) by {
        assert("image"@[0] != "event"@[0]);
    }
    assert("image"@ != "color"@) by {
        assert("image"@[0] != "color"@[0]);
    }
    assert("image"@ != "bool"@) by {
        assert("image"@.len() != "bool"@.len());
    }
    assert("image"@ != "long"@) by {
        assert("image"@.len() != "long"@.len());
    }
    assert("image"@ != "point2D"@) by {
        assert("image"@.len() != "point2D"@.len());
    }
    assert("audio"@ != "float"@) by {
        assert("audio"@[0] != "float"@[0]);
    }
    assert("audio"@ != "event"@) by {
        assert("audio"@[0] != "event"@[0]);
    }
    assert("audio"@ != "color"@) by {
        assert("audio"@[0] != "color"@[0]);
    }
    assert("audio"@ != "bool"@) by {
        assert("audio"@.len() != "bool"@.len());
    }
    assert("audio"@ != "long"@) by {
        assert("audio"@.len() != "long"@.len());
    }
    assert("audio"@ != "point2D"@) by {
        assert("audio"@.len() != "point2D"@.len());
    }
    assert("audioFFT"@ != "float"@) by {
        assert("audioFFT"@.len() != "float"@.len());
    }
    assert("audioFFT"@ != "event"@) by {
        assert("audioFFT"@.len() != "event"@.len());
    }
    assert("audioFFT"@ != "color"@) by {
        assert("audioFFT"@.len() != "color"@.len());
    }
    assert("audioFFT"@ != "bool"@) by {
        assert("audioFFT"@.len() != "bool"@.len());
    }
    assert("audioFFT"@ != "long"@) by {
        assert("audioFFT"@.len() != "long"@.len());
    }
    assert("audioFFT"@ != "point2D"@) by {
        assert("audioFFT"@.len() != "point2D"@.len());
    }
}

fn f32_member(v: &Json, key: &str, dflt: u32) -> (r: u32)
    ensures
        r == f32_or(get(*v, key@), dflt),
{
    match number_of(get_member(v, key)) {
        Some(n) => f64_to_f32(n.bits),
        None => dflt,
    }
}

fn i32_member(v: &Json, key: &str, dflt: i32) -> (r: i32)
    ensures
        r == i32_or(get(*v, key@), dflt),
{
    match number_of(get_member(v, key)) {
        Some(n) => f64_to_i32(n.bits),
        None => dflt,
    }
}

fn f32_elem(a: &Vec<Json>, i: usize, dflt: u32) -> (r: u32)
    ensures
        r == f32_at(a@, i as int, dflt),
{
    if i < a.len() {
        match number_of(Some(&a[i])) {
            Some(n) => f64_to_f32(n.bits),
            None => dflt,
        }
    } else {
        dflt
    }
}

fn kind_from(ty: &Vec<char>, v: &Json, d: Option<&Json>) -> (r: Option<InputKind>)
    ensures
        r == kind_of(ty@, *v, match d {
            Some(j) => Some(*j),
            None => None,
        }),
{
    if eq_str(ty, "float") {
        let default = match number_of(d) {
            Some(n) => f64_to_f32(n.bits),
            None => 0,
        };
        Some(
            InputKind::Float {
                default,
                min: f32_member(v, "MIN", 0),
                max: f32_member(v, "MAX", ONE),
            },
        )
    } else if eq_str(ty, "bool") {
        let default = match d {
            Some(Json::Bool(b)) => *b,
            Some(Json::Number(n)) => is_nonzero_f64(n.bits),
            _ => false,
        };
        Some(InputKind::Bool { default })
    } else if eq_str(ty, "event") {
        Some(InputKind::Event)
    } else if eq_str(ty, "long") {
        let default = match number_of(d) {
            Some(n) => f64_to_i32(n.bits),
            None => 0,
        };
        Some(
            InputKind::Long {
                default,
                min: i32_member(v, "MIN", 0),
                max: i32_member(v, "MAX", 1),
            },
        )
    } else if eq_str(ty, "color") {
        let default = match d {
            Some(Json::Array(a)) => Rgba { r: f32_elem(a, 0, ONE), g: f32_elem(a, 1, ONE), b: f32_elem(a, 2, ONE), a: f32_elem(a, 3, ONE) },
            _ => Rgba { r: ONE, g: ONE, b: ONE, a: ONE },
        };
        Some(InputKind::Color { default })
    } else if eq_str(ty, "point2D") {
        let default = match d {
            Some(Json::Array(a)) => Xy { x: f32_elem(a, 0, HALF), y: f32_elem(a, 1, HALF) },
            _ => Xy { x: HALF, y: HALF },
        };
        Some(InputKind::Point2D { default })
    } else if eq_str(ty, "image") || eq_str(ty, "audio") || eq_str(ty, "audioFFT") {
        Some(InputKind::Image)
    } else {
        None
    }
}

fn clone_string(s: &String) -> (r: String)
    ensures
        r@ == s@,
{
    s.clone()
}

/// Reads one input object.
pub fn parse_input(v: &Json) -> (r: Result<Input, IsfError>)
    ensures
        match input_of(*v) {
            Ok(i) => r matches Ok(x) && x@ == i,
            Err(e) => r matches Err(x) && x@ == e,
        },
{
    let name = match str_of(get_member(v, "NAME")) {
        None => {
            return Err(IsfError::InputWithoutName);
        },
        Some(n) => clone_string(n),
    };
    let ty: Vec<char> = match str_of(get_member(v, "TYPE")) {
        Some(t) => chars_of(t.as_str()),
        None => chars_of("float"),
    };
    let label = match str_of(get_member(v, "LABEL")) {
        Some(l) => Some(clone_string(l)),
        None => None,
    };
    match kind_from(&ty, v, get_member(v, "DEFAULT")) {
        None => Err(IsfError::UnsupportedType(name, string_of(&ty))),
        Some(kind) => Ok(Input { name, label, kind }),
    }
}

// ---------------------------------------------------------------- the file
/// The strings among `a`, in order.
pub open spec fn strings_in(a: Seq<Json>) -> Seq<Seq<char>>
    decreases a.len(),
{
    if a.len() == 0 {
        Seq::empty()
    } else {
        match as_str(Some(a.last())) {
            Some(s) => strings_in(a.drop_last()).push(s),
            None => strings_in(a.drop_last()),
        }
    }
}

/// The first `n` input objects read, or the first error among them.
pub open spec fn inputs_run(a: Seq<Json>, n: nat) -> Result<Seq<InputV>, IsfErrorV>
    decreases n,
{
    if n == 0 {
        Ok(Seq::empty())
    } else {
        match inputs_run(a, (n - 1) as nat) {
            Err(e) => Err(e),
            Ok(ins) => match input_of(a[n - 1]) {
                Err(e) => Err(e),
                Ok(i) => Ok(ins.push(i)),
            },
        }
    }
}

/// What an ISF header says, with the body that follows it. Missing
/// `DESCRIPTION` and `CREDIT` read as empty, missing `CATEGORIES` and
/// `INPUTS` as none, and `PASSES` counts at least one pass.
pub open spec fn isf_of(json: Json, body: Seq<char>) -> Result<IsfV, IsfErrorV> {
    let inputs = match as_array(get(json, "INPUTS"@)) {
        Some(a) => inputs_run(a, a.len()),
        None => Ok(Seq::empty()),
    };
    match inputs {
        Err(e) => Err(e),
        Ok(ins) => Ok(
            IsfV {
                description: match as_str(get(json, "DESCRIPTION"@)) {
                    Some(s) => s,
                    None => Seq::empty(),
                },
                credit: match as_str(get(json, "CREDIT"@)) {
                    Some(s) => s,
                    None => Seq::empty(),
                },
                categories: match as_array(get(json, "CATEGORIES"@)) {
                    Some(a) => strings_in(a),
                    None => Seq::empty(),
                },
                inputs: ins,
                passes: match as_array(get(json, "PASSES"@)) {
                    Some(a) => if a.len() > 1 {
                        a.len()
                    } else {
                        1
                    },
                    None => 1,
                },
                body,
            },
        ),
    }
}

proof fn lemma_inputs_err(a: Seq<Json>, m: nat, n: nat)
    requires
        m <= n,
        inputs_run(a, m) is Err,
    ensures
        inputs_run(a, n) == inputs_run(a, m),
    decreases n - m,
{
    if m < n {
        lemma_inputs_err(a, m, (n - 1) as nat);
    }
}

fn str_member(v: &Json, key: &str) -> (r: String)
    ensures
        r@ == match as_str(get(*v, key@)) {
            Some(s) => s,
            None => Seq::empty(),
        },
{
    match str_of(get_member(v, key)) {
        Some(s) => clone_string(s),
        None => string_of(&Vec::new()),
    }
}

/// Reads an ISF file out of its parsed header and its body.
#[verifier::loop_isolation(false)]
pub fn from_json(json: &Json, body: &str) -> (r: Result<Isf, IsfError>)
    ensures
        match isf_of(*json, body@) {
            Ok(i) => r matches Ok(x) && x@ == i,
            Err(e) => r matches Err(x) && x@ == e,
        },
{
    let mut inputs: Vec<Input> = Vec::new();
    assert(input_views(inputs@) =~= Seq::<InputV>::empty());
    match get_member(json, "INPUTS") {
        Some(Json::Array(a)) => {
            let mut i: usize = 0;
            while i < a.len()
                invariant
                    i <= a.len(),
                    inputs_run(a@, i as nat) == Ok::<_, IsfErrorV>(input_views(inputs@)),
                decreases a.len() - i,
            {
                let ghost old_in = input_views(inputs@);
                match parse_input(&a[i]) {
                    Err(e) => {
                        assert(inputs_run(a@, (i + 1) as nat) == Err::<Seq<InputV>, IsfErrorV>(e@));
                        proof {
                            lemma_inputs_err(a@, (i + 1) as nat, a.len() as nat);
                        }
                        return Err(e);
                    },
                    Ok(x) => {
                        inputs.push(x);
                        assert(input_views(inputs@) =~= old_in.push(inputs@.last()@));
                    },
                }
                i = i + 1;
            }
        },
        _ => {
            assert(input_views(inputs@) =~= Seq::<InputV>::empty());
        },
    }
    let mut categories: Vec<String> = Vec::new();
    match get_member(json, "CATEGORIES") {
        Some(Json::Array(a)) => {
            let mut i: usize = 0;
            assert(a@.take(0) =~= Seq::<Json>::empty());
            assert(categories@.map_values(|s: String| s@) =~= Seq::<Seq<char>>::empty());
            while i < a.len()
                invariant
                    i <= a.len(),
                    categories@.map_values(|s: String| s@) == strings_in(a@.take(i as int)),
                decreases a.len() - i,
            {
                let ghost old_c = categories@.map_values(|s: String| s@);
                assert(a@.take(i + 1).drop_last() =~= a@.take(i as int));
                match &a[i] {
                    Json::Str(s) => {
                        categories.push(clone_string(s));
                        assert(categories@.map_values(|s: String| s@) =~= old_c.push(s@));
                    },
                    _ => {},
                }
                i = i + 1;
            }
            assert(a@.take(a.len() as int) =~= a@);
        },
        _ => {
            assert(categories@.map_values(|s: String| s@) =~= Seq::<Seq<char>>::empty());
        },
    }
    let passes = match get_member(json, "PASSES") {
        Some(Json::Array(a)) => if a.len() > 1 {
            a.len()
        } else {
            1
        },
        _ => 1,
    };
    let body_s = string_of(&chars_of(body));
    Ok(
        Isf {
            description: str_member(json, "DESCRIPTION"),
            credit: str_member(json, "CREDIT"),
            categories,
            inputs,
            passes,
            body: body_s,
        },
    )
}


// ---------------------------------------------------------------- the source
/// The header's JSON: as written, or, when that does not parse, with its
/// trailing commas removed; the first error when neither parses.
pub open spec fn header_json(h: Seq<char>) -> Result<Json, Seq<char>> {
    match parsed_json(h) {
        Ok(j) => Ok(j),
        Err(m) => match parsed_json(without_trailing_commas(h)) {
            Ok(j) => Ok(j),
            Err(_) => Err(m),
        },
    }
}

/// `parse`: the header split off, read as JSON, and the ISF file it
/// describes.
pub open spec fn parse_spec(src: Seq<char>) -> Result<IsfV, IsfErrorV> {
    match header_split(src) {
        Err(e) => Err(e),
        Ok((h, b)) => match header_json(h) {
            Err(m) => Err(IsfErrorV::BadJson(m)),
            Ok(j) => isf_of(j, b),
        },
    }
}

/// Parses an ISF source: the JSON header comment (trailing commas
/// tolerated) and the GLSL body after it.
pub fn parse(src: &str) -> (r: Result<Isf, IsfError>)
    ensures
        match parse_spec(src@) {
            Ok(i) => r matches Ok(x) && x@ == i,
            Err(e) => r matches Err(x) && x@ == e,
        },
{
    let (header, body) = match split_header(src) {
        Ok(hb) => hb,
        Err(e) => {
            return Err(e);
        },
    };
    let json = match parse_json(header.as_str()) {
        Ok(j) => j,
        Err(m) => {
            let relaxed = strip_trailing_commas(header.as_str());
            match parse_json(relaxed.as_str()) {
                Ok(j) => j,
                Err(_) => {
                    return Err(IsfError::BadJson(m));
                },
            }
        },
    };
    from_json(&json, body.as_str())
}


// ---------------------------------------------------------------- messages
/// The message of an ISF error. For a header that is not JSON it is the
/// context only; the parser's own message is the error's field.
pub open spec fn isf_message(e: IsfErrorV) -> Seq<char> {
    match e {
        IsfErrorV::NoHeaderComment => "no ISF header comment (/*{ ... }*/) found"@,
        IsfErrorV::UnterminatedHeader => "unterminated ISF header comment"@,
        IsfErrorV::InputWithoutName => "input without NAME"@,
        IsfErrorV::UnsupportedType(n, t) => "input "@ + n + ": unsupported TYPE "@ + debug_quoted(t),
        IsfErrorV::BadJson(_) => "ISF header is not valid JSON"@,
    }
}

impl IsfError {
    /// The message reported for this error.
    pub fn message(&self) -> (r: String)
        ensures
            r@ == isf_message(self@),
    {
        let mut out: Vec<char> = Vec::new();
        match self {
            IsfError::NoHeaderComment => push_str(&mut out, "no ISF header comment (/*{ ... }*/) found"),
            IsfError::UnterminatedHeader => push_str(&mut out, "unterminated ISF header comment"),
            IsfError::InputWithoutName => push_str(&mut out, "input without NAME"),
            IsfError::UnsupportedType(n, t) => {
                push_str(&mut out, "input ");
                push_str(&mut out, n.as_str());
                push_str(&mut out, ": unsupported TYPE ");
                let q = quoted(t.as_str());
                push_str(&mut out, q.as_str());
            },
            IsfError::BadJson(_) => push_str(&mut out, "ISF header is not valid JSON"),
        }
        let r = string_of(&out);
        assert(r@ =~= isf_message(self@));
        r
    }
}

} // verus!
