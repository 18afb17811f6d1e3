//! Text handling of the command line: `WxH` sizes, and the short forms of
//! the error reports of shader compilers.
use vstd::prelude::*;
use crate::text::{
    push_str, push_decimal, chars_of, copy_range, decimal, digit_char, is_ws, lines, lines_of, split_once, split_once_char,
    string_of, trim, trim_chars, views,
};

verus! {

/// Why an integer did not parse (as `u32::from_str` reports it).
#[derive(Debug, Clone, Copy, PartialEq, Eq, Structural)]
pub enum IntError {
    /// The text is empty.
    Empty,
    /// A character is not a decimal digit.
    InvalidDigit,
    /// The value does not fit in a `u32`.
    PosOverflow,
}

/// Why a `WxH` size did not parse.
#[derive(Debug, Clone, Copy, PartialEq, Eq, Structural)]
pub enum SizeError {
    /// There is no `x`.
    NotWxH,
    /// The width or the height is not a `u32`.
    Int(IntError),
}

impl SizeError {
    /// The message reported for this error.
    pub fn message(&self) -> (r: &'static str)
        ensures
            r@ == size_message(*self),
    {
        let r = match self {
            SizeError::NotWxH => "size must be WxH",
            SizeError::Int(IntError::Empty) => "cannot parse integer from empty string",
            SizeError::Int(IntError::InvalidDigit) => "invalid digit found in string",
            SizeError::Int(IntError::PosOverflow) => "number too large to fit in target type",
        };
        r
    }
}

pub open spec fn size_message(e: SizeError) -> Seq<char> {
    match e {
        SizeError::NotWxH => "size must be WxH"@,
        SizeError::Int(IntError::Empty) => "cannot parse integer from empty string"@,
        SizeError::Int(IntError::InvalidDigit) => "invalid digit found in string"@,
        SizeError::Int(IntError::PosOverflow) => "number too large to fit in target type"@,
    }
}

// ---------------------------------------------------------------- integers
/// The value of a decimal digit.
pub open spec fn digit_value(c: char) -> Option<nat> {
    if '0' <= c && c <= '9' {
        Some((c as nat - '0' as nat) as nat)
    } else {
        None
    }
}

/// Digits read left to right: the first character that is not a digit, or
/// the first at which the value leaves `u32`, is the error.
pub open spec fn digits_value(d: Seq<char>) -> Result<u32, IntError>
    decreases d.len(),
{
    if d.len() == 0 {
        Ok(0)
    } else {
        match digits_value(d.drop_last()) {
            Err(e) => Err(e),
            Ok(acc) => match digit_value(d.last()) {
                None => Err(IntError::InvalidDigit),
                Some(x) => if acc * 10 + x > u32::MAX {
                    Err(IntError::PosOverflow)
                } else {
                    Ok((acc * 10 + x) as u32)
                },
            },
        }
    }
}

/// `u32::from_str`: an optional `+`, then at least one decimal digit.
pub open spec fn parse_u32_spec(s: Seq<char>) -> Result<u32, IntError> {
    if s.len() == 0 {
        Err(IntError::Empty)
    } else if s[0] == '+' {
        if s.len() == 1 {
            Err(IntError::InvalidDigit)
        } else {
            digits_value(s.skip(1))
        }
    } else {
        digits_value(s)
    }
}

proof fn lemma_err_sticky(d: Seq<char>, k: int)
    requires
        0 <= k <= d.len(),
        digits_value(d.take(k)) is Err,
    ensures
        digits_value(d) == digits_value(d.take(k)),
    decreases d.len() - k,
{
    if k < d.len() {
        assert(d.take(k + 1).drop_last() =~= d.take(k));
        lemma_err_sticky(d, k + 1);
    } else {
        assert(d.take(k) =~= d);
    }
}

fn digits_u32(d: &Vec<char>, start: usize) -> (r: Result<u32, IntError>)
    requires
        start <= d.len(),
    ensures
        r == digits_value(d@.skip(start as int)),
{
    let ghost s = d@.skip(start as int);
    let mut acc: u32 = 0;
    let mut i: usize = start;
    assert(s.take(0) =~= Seq::<char>::empty());
    while i < d.len()
        invariant
            start <= i <= d.len(),
            s == d@.skip(start as int),
            digits_value(s.take(i - start)) == Ok::<u32, IntError>(acc),
        decreases d.len() - i,
    {
        let c = d[i];
        assert(s.take(i - start + 1).drop_last() =~= s.take(i - start));
        assert(s.take(i - start + 1).last() == c);
        if !('0' <= c && c <= '9') {
            proof {
                lemma_err_sticky(s, i - start + 1);
            }
            return Err(IntError::InvalidDigit);
        }
        let x = (c as u32) - ('0' as u32);
        if acc > 429_496_729 || (acc == 429_496_729 && x > 5) {
            proof {
                lemma_err_sticky(s, i - start + 1);
            }
            return Err(IntError::PosOverflow);
        }
        acc = acc * 10 + x;
        i = i + 1;
    }
    assert(s.take(d.len() - start) =~= s);
    Ok(acc)
}

/// `u32::from_str` on characters.
pub fn parse_u32(s: &Vec<char>) -> (r: Result<u32, IntError>)
    ensures
        r == parse_u32_spec(s@),
{
    if s.len() == 0 {
        return Err(IntError::Empty);
    }
    if s[0] == '+' {
        if s.len() == 1 {
            return Err(IntError::InvalidDigit);
        }
        digits_u32(s, 1)
    } else {
        assert(s@.skip(0) =~= s@);
        digits_u32(s, 0)
    }
}

// ---------------------------------------------------------------- sizes
/// `parse_size`: `W` and `H` around the first `x`, each a `u32`.
pub open spec fn size_spec(s: Seq<char>) -> Result<(u32, u32), SizeError> {
    match split_once(s, 'x') {
        None => Err(SizeError::NotWxH),
        Some((w, h)) => match parse_u32_spec(w) {
            Err(e) => Err(SizeError::Int(e)),
            Ok(wv) => match parse_u32_spec(h) {
                Err(e) => Err(SizeError::Int(e)),
                Ok(hv) => Ok((wv, hv)),
            },
        },
    }
}

/// A size such as `1280x720`.
pub fn parse_size(s: &str) -> (r: Result<(u32, u32), SizeError>)
    ensures
        r == size_spec(s@),
{
    let cs = chars_of(s);
    match split_once_char(&cs, 'x') {
        None => Err(SizeError::NotWxH),
        Some((w, h)) => match parse_u32(&w) {
            Err(e) => Err(SizeError::Int(e)),
            Ok(wv) => match parse_u32(&h) {
                Err(e) => Err(SizeError::Int(e)),
                Ok(hv) => Ok((wv, hv)),
            },
        },
    }
}

proof fn lemma_digit_char_value(k: nat)
    requires
        k < 10,
    ensures
        digit_value(digit_char(k)) == Some(k),
{
}

/// A numeral reads back as its value: `n.to_string().parse::<u32>()` is `n`.
pub proof fn lemma_decimal_parses(n: u32)
    ensures
        digits_value(decimal(n as nat)) == Ok::<u32, IntError>(n),
        parse_u32_spec(decimal(n as nat)) == Ok::<u32, IntError>(n),
    decreases n,
{
    let d = decimal(n as nat);
    if n < 10 {
        lemma_digit_char_value(n as nat);
        assert(d.drop_last() =~= Seq::<char>::empty());
        assert(digits_value(d.drop_last()) == Ok::<u32, IntError>(0));
        assert(d.last() == digit_char(n as nat));
    } else {
        lemma_decimal_parses(n / 10);
        lemma_digit_char_value((n % 10) as nat);
        assert(d.drop_last() =~= decimal((n / 10) as nat));
        assert(d.last() == digit_char((n % 10) as nat));
        assert((n / 10) as nat * 10 + (n % 10) as nat == n);
    }
    lemma_decimal_nonempty(n as nat);
}

proof fn lemma_decimal_nonempty(n: nat)
    ensures
        decimal(n).len() >= 1,
        decimal(n)[0] != '+',
        decimal(n)[0] != 'x',
        forall|i: int| 0 <= i < decimal(n).len() ==> (#[trigger] decimal(n)[i]) != 'x',
    decreases n,
{
    if n >= 10 {
        lemma_decimal_nonempty(n / 10);
    }
}

/// A size printed as `WxH` parses back to itself.
pub proof fn lemma_size_roundtrip(w: u32, h: u32)
    ensures
        size_spec(decimal(w as nat) + seq!['x'] + decimal(h as nat)) == Ok::<(u32, u32), SizeError>(
            (w, h),
        ),
{
    let s = decimal(w as nat) + seq!['x'] + decimal(h as nat);
    lemma_decimal_parses(w);
    lemma_decimal_parses(h);
    lemma_decimal_nonempty(w as nat);
    lemma_decimal_nonempty(h as nat);
    let k = decimal(w as nat).len();
    crate::text::lemma_find(s, 'x', k as int);
    assert(s.take(k as int) =~= decimal(w as nat));
    assert(s.skip(k + 1 as int) =~= decimal(h as nat));
}

// ---------------------------------------------------------------- error reports
/// The first line of `s`, empty when there is none.
pub open spec fn first_line_spec(s: Seq<char>) -> Seq<char> {
    if lines(s).len() > 0 {
        lines(s)[0]
    } else {
        Seq::empty()
    }
}

/// The first line of a message.
pub fn first_line(s: &str) -> (r: String)
    ensures
        r@ == first_line_spec(s@),
{
    let cs = chars_of(s);
    let ls = lines_of(&cs);
    if ls.len() > 0 {
        assert(views(ls@)[0] == ls@[0]@);
        string_of(&ls[0])
    } else {
        String::new()
    }
}

/// The lines of `ls` that are not blank, in order.
pub open spec fn solid_lines(ls: Seq<Seq<char>>) -> Seq<Seq<char>>
    decreases ls.len(),
{
    if ls.len() == 0 {
        ls
    } else if trim(ls.last()).len() > 0 {
        solid_lines(ls.drop_last()).push(ls.last())
    } else {
        solid_lines(ls.drop_last())
    }
}

/// Whether `p` occurs in `s`.
pub open spec fn contains(s: Seq<char>, p: Seq<char>) -> bool {
    exists|i: int| 0 <= i && i + p.len() <= s.len() && #[trigger] s.subrange(i, i + p.len()) == p
}

/// The box-drawing corner that starts a source location in a diagnostic.
pub open spec fn corner() -> Seq<char> {
    seq!['\u{250C}', '\u{2500}']
}

pub open spec fn arrow() -> Seq<char> {
    seq!['-', '-', '>']
}

/// Whether a line points at a source location.
pub open spec fn is_location(l: Seq<char>) -> bool {
    contains(l, corner()) || contains(l, arrow())
}

/// Index of the first location line in `ls` from `i` on, `ls.len()` when
/// there is none.
pub open spec fn first_location(ls: Seq<Seq<char>>, i: int) -> int
    decreases ls.len() - i,
{
    if i >= ls.len() {
        ls.len() as int
    } else if is_location(ls[i]) {
        i
    } else {
        first_location(ls, i + 1)
    }
}

/// `first_error`: the first non-blank line, trimmed, and, when a later
/// non-blank line points at a source location, that line trimmed after two
/// spaces.
pub open spec fn first_error_spec(s: Seq<char>) -> Seq<char> {
    let ls = solid_lines(lines(s));
    let head = if ls.len() > 0 {
        trim(ls[0])
    } else {
        Seq::empty()
    };
    let k = first_location(ls, 1);
    if k < ls.len() {
        head + seq![' ', ' '] + trim(ls[k])
    } else {
        head
    }
}

fn contains_chars(s: &Vec<char>, p: &Vec<char>) -> (r: bool)
    ensures
        r == contains(s@, p@),
{
    if p.len() > s.len() {
        return false;
    }
    let mut i: usize = 0;
    while i <= s.len() - p.len()
        invariant
            p.len() <= s.len(),
            i <= s.len() - p.len() + 1,
            forall|j: int| 0 <= j < i ==> #[trigger] s@.subrange(j, j + p.len()) != p@,
        decreases s.len() - i,
    {
        let mut k: usize = 0;
        let mut same = true;
        while k < p.len()
            invariant
                i + p.len() <= s.len(),
                k <= p.len(),
                same == (forall|t: int| 0 <= t < k ==> s@[i + t] == p@[t]),
            decreases p.len() - k,
        {
            if s[i + k] != p[k] {
                same = false;
            }
            k = k + 1;
        }
        if same {
            assert(s@.subrange(i as int, i + p.len()) =~= p@);
            return true;
        }
        assert(s@.subrange(i as int, i + p.len()) != p@) by {
            let t = choose|t: int| 0 <= t < p.len() && s@[i + t] != p@[t];
            assert(s@.subrange(i as int, i + p.len())[t] == s@[i + t]);
        }
        i = i + 1;
    }
    false
}

fn is_location_line(l: &Vec<char>, corner_v: &Vec<char>, arrow_v: &Vec<char>) -> (r: bool)
    requires
        corner_v@ == corner(),
        arrow_v@ == arrow(),
    ensures
        r == is_location(l@),
{
    contains_chars(l, corner_v) || contains_chars(l, arrow_v)
}

fn solid_lines_of(ls: &Vec<Vec<char>>) -> (r: Vec<Vec<char>>)
    ensures
        views(r@) == solid_lines(views(ls@)),
{
    let mut out: Vec<Vec<char>> = Vec::new();
    let mut i: usize = 0;
    while i < ls.len()
        invariant
            i <= ls.len(),
            views(out@) == solid_lines(views(ls@).take(i as int)),
        decreases ls.len() - i,
    {
        assert(views(ls@).take(i + 1).drop_last() =~= views(ls@).take(i as int));
        assert(views(ls@).take(i + 1).last() == ls@[i as int]@);
        let t = trim_chars(&ls[i]);
        if t.len() > 0 {
            let ghost oo = views(out@);
            let l = copy_range(&ls[i], 0, ls[i].len());
            assert(l@ =~= ls@[i as int]@);
            out.push(l);
            assert(views(out@) =~= oo.push(ls@[i as int]@));
        }
        i = i + 1;
    }
    assert(views(ls@).take(ls.len() as int) =~= views(ls@));
    out
}

/// The head of a shader compiler's report: its first non-blank line, followed by
/// the line that locates the error when there is one.
pub fn first_error(s: &str) -> (r: String)
    ensures
        r@ == first_error_spec(s@),
{
    let cs = chars_of(s);
    let all = lines_of(&cs);
    let ls = solid_lines_of(&all);
    let ghost lv = views(ls@);
    let head: Vec<char> = if ls.len() > 0 {
        trim_chars(&ls[0])
    } else {
        Vec::new()
    };
    let corner_v = vec!['\u{250C}', '\u{2500}'];
    let arrow_v = vec!['-', '-', '>'];
    assert(corner_v@ =~= corner());
    assert(arrow_v@ =~= arrow());
    let mut k: usize = 1;
    while k < ls.len() && !is_location_line(&ls[k], &corner_v, &arrow_v)
        invariant
            1 <= k,
            k <= ls.len() || ls.len() == 0,
            lv == views(ls@),
            corner_v@ == corner(),
            arrow_v@ == arrow(),
            first_location(lv, 1) == first_location(lv, k as int),
        decreases ls.len() - k,
    {
        k = k + 1;
    }
    let mut out = head;
    if k < ls.len() {
        assert(first_location(lv, k as int) == k as int);
        let loc = trim_chars(&ls[k]);
        out.push(' ');
        out.push(' ');
        let mut j: usize = 0;
        let ghost o = out@;
        while j < loc.len()
            invariant
                j <= loc.len(),
                out@ == o + loc@.take(j as int),
            decreases loc.len() - j,
        {
            out.push(loc[j]);
            j = j + 1;
            assert(out@ =~= o + loc@.take(j as int));
        }
        assert(loc@.take(loc.len() as int) =~= loc@);
    } else {
        assert(first_location(lv, k as int) == lv.len());
    }
    string_of(&out)
}


// ---------------------------------------------------------------- the check report
/// What became of one shader file in a check.
#[derive(Debug)]
pub enum CheckOutcome {
    /// It did not load or parse: the error report.
    ParseFailed(String),
    /// It translated; it has this many image inputs.
    Translated { images: usize },
    /// It did not translate: the translator's report.
    TranslateFailed(String),
}

pub enum CheckOutcomeV {
    ParseFailed(Seq<char>),
    Translated { images: nat },
    TranslateFailed(Seq<char>),
}

impl View for CheckOutcome {
    type V = CheckOutcomeV;

    open spec fn view(&self) -> CheckOutcomeV {
        match self {
            CheckOutcome::ParseFailed(e) => CheckOutcomeV::ParseFailed(e@),
            CheckOutcome::Translated { images } => CheckOutcomeV::Translated { images: *images as nat },
            CheckOutcome::TranslateFailed(e) => CheckOutcomeV::TranslateFailed(e@),
        }
    }
}

/// The line reported for file `name`: `PARSE` with the first line of the
/// error, `OK` with the number of image inputs when there are any, or `FAIL`
/// with the head of the translator's report.
pub open spec fn check_line_spec(name: Seq<char>, o: CheckOutcomeV) -> Seq<char> {
    match o {
        CheckOutcomeV::ParseFailed(e) => "PARSE  "@ + name + ": "@ + first_line_spec(e),
        CheckOutcomeV::Translated { images } => "OK     "@ + name + if images > 0 {
            " ("@ + decimal(images) + " image inputs)"@
        } else {
            Seq::empty()
        },
        CheckOutcomeV::TranslateFailed(e) => "FAIL   "@ + name + ": "@ + first_error_spec(e),
    }
}

pub fn check_line(name: &str, o: &CheckOutcome) -> (r: String)
    ensures
        r@ == check_line_spec(name@, o@),
{
    let mut out: Vec<char> = Vec::new();
    match o {
        CheckOutcome::ParseFailed(e) => {
            push_str(&mut out, "PARSE  ");
            push_str(&mut out, name);
            push_str(&mut out, ": ");
            let l = first_line(e.as_str());
            push_str(&mut out, l.as_str());
        },
        CheckOutcome::Translated { images } => {
            push_str(&mut out, "OK     ");
            push_str(&mut out, name);
            if *images > 0 {
                push_str(&mut out, " (");
                push_decimal(&mut out, *images as u128);
                push_str(&mut out, " image inputs)");
            }
        },
        CheckOutcome::TranslateFailed(e) => {
            push_str(&mut out, "FAIL   ");
            push_str(&mut out, name);
            push_str(&mut out, ": ");
            let l = first_error(e.as_str());
            push_str(&mut out, l.as_str());
        },
    }
    let r = string_of(&out);
    assert(r@ =~= check_line_spec(name@, o@));
    r
}

/// How many outcomes are translated, failed to translate, failed to parse.
pub open spec fn tally(os: Seq<CheckOutcomeV>) -> (nat, nat, nat)
    decreases os.len(),
{
    if os.len() == 0 {
        (0, 0, 0)
    } else {
        let (a, b, c) = tally(os.drop_last());
        match os.last() {
            CheckOutcomeV::Translated { .. } => (a + 1, b, c),
            CheckOutcomeV::TranslateFailed(_) => (a, b + 1, c),
            CheckOutcomeV::ParseFailed(_) => (a, b, c + 1),
        }
    }
}

/// The closing line of a check (after a blank line): the counts, and the
/// number of files.
pub open spec fn check_summary_spec(os: Seq<CheckOutcomeV>) -> Seq<char> {
    let (ok, tf, pf) = tally(os);
    "\n"@ + decimal(ok) + " ok, "@ + decimal(tf) + " failed to translate, "@ + decimal(pf)
        + " failed to parse ("@ + decimal(os.len()) + " total)"@
}

pub fn check_summary(outcomes: &Vec<CheckOutcome>) -> (r: String)
    ensures
        r@ == check_summary_spec(outcomes@.map_values(|o: CheckOutcome| o@)),
{
    let ghost os = outcomes@.map_values(|o: CheckOutcome| o@);
    let mut ok: usize = 0;
    let mut tf: usize = 0;
    let mut pf: usize = 0;
    let mut i: usize = 0;
    assert(os.take(0) =~= Seq::<CheckOutcomeV>::empty());
    while i < outcomes.len()
        invariant
            i <= outcomes.len(),
            os == outcomes@.map_values(|o: CheckOutcome| o@),
            tally(os.take(i as int)) == (ok as nat, tf as nat, pf as nat),
            ok + tf + pf == i,
        decreases outcomes.len() - i,
    {
        assert(os.take(i + 1).drop_last() =~= os.take(i as int));
        assert(os.take(i + 1).last() == outcomes@[i as int]@);
        match &outcomes[i] {
            CheckOutcome::Translated { .. } => ok = ok + 1,
            CheckOutcome::TranslateFailed(_) => tf = tf + 1,
            CheckOutcome::ParseFailed(_) => pf = pf + 1,
        }
        i = i + 1;
    }
    assert(os.take(outcomes.len() as int) =~= os);
    let mut out: Vec<char> = Vec::new();
    push_str(&mut out, "\n");
    push_decimal(&mut out, ok as u128);
    push_str(&mut out, " ok, ");
    push_decimal(&mut out, tf as u128);
    push_str(&mut out, " failed to translate, ");
    push_decimal(&mut out, pf as u128);
    push_str(&mut out, " failed to parse (");
    push_decimal(&mut out, outcomes.len() as u128);
    push_str(&mut out, " total)");
    let r = string_of(&out);
    assert(r@ =~= check_summary_spec(os));
    r
}

/// Every file of a check is counted once in its summary.
pub proof fn lemma_summary_counts_every_file(os: Seq<CheckOutcomeV>)
    ensures
        tally(os).0 + tally(os).1 + tally(os).2 == os.len(),
    decreases os.len(),
{
    if os.len() > 0 {
        lemma_summary_counts_every_file(os.drop_last());
    }
}


/// Why a check does not start.
#[derive(Debug, Clone, Copy, PartialEq, Eq, Structural)]
pub enum CheckError {
    /// No shader file was named.
    NoFiles,
}

impl CheckError {
    /// The message reported for this error.
    pub fn message(&self) -> (r: &'static str)
        ensures
            r@ == "no files given"@,
    {
        "no files given"
    }
}

/// A check needs at least one file: with `count` files named, it starts, or
/// fails with `NoFiles` when there are none.
pub fn check_start(count: usize) -> (r: Result<(), CheckError>)
    ensures
        r == if count == 0 {
            Err::<(), CheckError>(CheckError::NoFiles)
        } else {
            Ok::<(), CheckError>(())
        },
{
    if count == 0 {
        Err(CheckError::NoFiles)
    } else {
        Ok(())
    }
}

} // verus!
