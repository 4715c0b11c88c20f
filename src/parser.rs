//! The parser: executable rules, each proved to compute its spec function of
//! `grammar`.
use vstd::prelude::*;
use nom::error::{ErrorKind, VerboseErrorKind};
use crate::grammar::{at, find_from, Stop, stops_at, scan, trivia_item, trivia_end, index_value, pin_index, pin_of, pairs_from, part_of, parts_from, part_starts, after_comma, list_pins, io_list_of, chip_of, Frames, CHIP_LABEL, PARTS_LABEL, IDENT_LABEL, OPEN_LABEL, CLOSE_LABEL, PIN_LABEL};
use crate::model::{Pin, PinView, Part, PartView, Chip, ChipView, pins_view, parts_view};
use crate::text::chars_of;
use crate::report::{frames_view, frames_within};
use crate::text::{is_alphanumeric, low_byte_of, string_of, digits_value};

verus! {

/// Whether `c` ends a run of the kind `stop`.
fn stops(stop: Stop, c: char) -> (r: bool)
    ensures
        r == stops_at(stop, c),
{
    match stop {
        Stop::Delimiter => c == ',' || c == ')' || c == ';' || c == '=' || c == '[' || c == '/'
            || c == ' ' || c == '\t' || c == '\r' || c == '\n',
        Stop::NonAlphanumeric => !is_alphanumeric(low_byte_of(c)),
        Stop::NonDigit => !('0' <= c && c <= '9'),
    }
}

/// The end of the run from `i` that `stop` ends.
fn scan_run(s: &Vec<char>, i: usize, stop: Stop) -> (r: usize)
    requires
        i <= s.len(),
    ensures
        i <= r <= s@.len(),
        r == scan(s@, i as int, stop),
        forall|k: int| i <= k < r ==> !stops_at(stop, #[trigger] s@[k]),
{
    let mut j = i;
    while j < s.len() && !stops(stop, s[j])
        invariant
            i <= j <= s@.len(),
            scan(s@, j as int, stop) == scan(s@, i as int, stop),
            forall|k: int| i <= k < j ==> !stops_at(stop, #[trigger] s@[k]),
        decreases s@.len() - j,
    {
        j += 1;
    }
    j
}

/// The characters `a`, `b`, ... of a short literal.
fn chars1(a: char) -> (r: Vec<char>)
    ensures
        r@ == seq![a],
{
    let mut v = Vec::new();
    v.push(a);
    assert(v@ =~= seq![a]);
    v
}

fn chars2(a: char, b: char) -> (r: Vec<char>)
    ensures
        r@ == seq![a, b],
{
    let mut v = chars1(a);
    v.push(b);
    assert(v@ =~= seq![a, b]);
    v
}

fn chars3(a: char, b: char, c: char) -> (r: Vec<char>)
    ensures
        r@ == seq![a, b, c],
{
    let mut v = chars2(a, b);
    v.push(c);
    assert(v@ =~= seq![a, b, c]);
    v
}

/// Whether `lit` occurs at `i`.
fn lit_at(s: &Vec<char>, i: usize, lit: &Vec<char>) -> (r: bool)
    requires
        i <= s.len(),
    ensures
        r == at(s@, i as int, lit@),
        r ==> i + lit@.len() <= s.len(),
{
    if lit.len() > s.len() - i {
        return false;
    }
    let mut k: usize = 0;
    while k < lit.len()
        invariant
            k <= lit@.len(),
            i + lit@.len() <= s.len(),
            forall|m: int| 0 <= m < k ==> s@[i + m] == lit@[m],
        decreases lit@.len() - k,
    {
        if s[i + k] != lit[k] {
            assert(s@.subrange(i as int, i + lit@.len())[k as int] != lit@[k as int]);
            return false;
        }
        k += 1;
    }
    assert(s@.subrange(i as int, i + lit@.len()) =~= lit@);
    true
}

/// The first occurrence of `lit` at or after `i`.
fn find_lit(s: &Vec<char>, i: usize, lit: &Vec<char>) -> (r: Option<usize>)
    requires
        i <= s.len(),
    ensures
        match r {
            Some(k) => find_from(s@, i as int, lit@) == Some(k as int) && i <= k && k + lit@.len()
                <= s@.len(),
            None => find_from(s@, i as int, lit@) is None,
        },
{
    let mut j = i;
    while j < s.len() && lit.len() <= s.len() - j
        invariant
            i <= j <= s@.len(),
            find_from(s@, j as int, lit@) == find_from(s@, i as int, lit@),
        decreases s@.len() - j,
    {
        if lit_at(s, j, lit) {
            return Some(j);
        }
        j += 1;
    }
    None
}

/// The end of the trivia item at `i`, if one starts there.
fn trivia_step(s: &Vec<char>, i: usize) -> (r: Option<usize>)
    requires
        i <= s.len(),
    ensures
        match r {
            Some(j) => trivia_item(s@, i as int) == Some(j as int),
            None => trivia_item(s@, i as int) is None,
        },
{
    if i < s.len() && (s[i] == ' ' || s[i] == '\t' || s[i] == '\r' || s[i] == '\n') {
        Some(i + 1)
    } else if lit_at(s, i, &chars2('/', '/')) {
        match find_lit(s, i + 2, &chars1('\n')) {
            Some(k) => Some(k + 1),
            None => None,
        }
    } else if lit_at(s, i, &chars3('/', '*', '*')) {
        match find_lit(s, i + 3, &chars2('*', '/')) {
            Some(k) => Some(k + 2),
            None => None,
        }
    } else {
        None
    }
}

/// Skips whitespace, line comments and block comments from `i` on.
pub fn skip_trivia(s: &Vec<char>, i: usize) -> (r: usize)
    requires
        i <= s.len(),
    ensures
        i <= r <= s@.len(),
        r == trivia_end(s@, i as int),
{
    let mut j = i;
    loop
        invariant
            i <= j <= s@.len(),
            trivia_end(s@, j as int) == trivia_end(s@, i as int),
        ensures
            i <= j <= s@.len(),
            j == trivia_end(s@, i as int),
        decreases s@.len() - j,
    {
        match trivia_step(s, j) {
            Some(k) => {
                if j < k && k <= s.len() {
                    j = k;
                } else {
                    break ;
                }
            },
            None => break ,
        }
    }
    j
}

/// The value of the digits `s[from..to]`, zero where it overflows `u32`.
fn index_of(s: &Vec<char>, from: usize, to: usize) -> (r: u32)
    requires
        from <= to <= s@.len(),
        forall|k: int| from <= k < to ==> '0' <= #[trigger] s@[k] <= '9',
    ensures
        r == index_value(s@.subrange(from as int, to as int)),
{
    let mut v: u64 = 0;
    let mut over = false;
    let mut j = from;
    while j < to
        invariant
            from <= j <= to <= s@.len(),
            forall|k: int| from <= k < to ==> '0' <= #[trigger] s@[k] <= '9',
            over ==> digits_value(s@.subrange(from as int, j as int)) > u32::MAX,
            !over ==> v == digits_value(s@.subrange(from as int, j as int)) && v <= u32::MAX,
        decreases to - j,
    {
        let d = (s[j] as u32 - 48) as u64;
        proof {
            let sub = s@.subrange(from as int, j + 1);
            assert(sub.drop_last() =~= s@.subrange(from as int, j as int));
            assert(sub.last() == s@[j as int]);
        }
        if !over {
            assert(v * 10 <= 42949672950) by (nonlinear_arith)
                requires
                    v <= 4294967295u64,
            ;
            let w = v * 10 + d;
            if w > 4294967295u64 {
                over = true;
            } else {
                v = w;
            }
        } else {
            proof {
                let dv = digits_value(s@.subrange(from as int, j as int));
                assert(dv * 10 >= dv) by (nonlinear_arith);
            }
        }
        j += 1;
    }
    if over {
        0
    } else {
        v as u32
    }
}

/// The index or range at `i`, as `pin_index` gives it.
fn read_index(s: &Vec<char>, i: usize) -> (r: Option<(u32, u32, usize)>)
    requires
        i <= s.len(),
    ensures
        match r {
            Some((lo, hi, e)) => pin_index(s@, i as int) == Some((lo, hi, e as int)) && e
                <= s@.len(),
            None => pin_index(s@, i as int) is None,
        },
{
    if !lit_at(s, i, &chars1('[')) {
        return None;
    }
    let d1 = scan_run(s, i + 1, Stop::NonDigit);
    if d1 == i + 1 {
        return None;
    }
    let v1 = index_of(s, i + 1, d1);
    if d1 < s.len() && s[d1] == ']' {
        return Some((v1, v1, d1 + 1));
    }
    if lit_at(s, d1, &chars2('.', '.')) {
        let d2 = scan_run(s, d1 + 2, Stop::NonDigit);
        if d2 > d1 + 2 && d2 < s.len() && s[d2] == ']' {
            let v2 = index_of(s, d1 + 2, d2);
            return Some((v1, v2, d2 + 1));
        }
    }
    None
}

/// The pin reference at `i`, as `pin_of` gives it.
pub fn read_pin(s: &Vec<char>, i: usize) -> (r: (Pin, usize))
    requires
        i <= s.len(),
    ensures
        r.1 <= s@.len(),
        (r.0@, r.1 as int) == pin_of(s@, i as int),
{
    let a = skip_trivia(s, i);
    let b = scan_run(s, a, Stop::Delimiter);
    let c = skip_trivia(s, b);
    let name = string_of(s, a, b);
    match read_index(s, c) {
        Some((lo, hi, e)) => {
            let end = skip_trivia(s, e);
            (Pin { name, start: lo, end: hi }, end)
        },
        None => (Pin { name, start: 0, end: 0 }, c),
    }
}

/// Two frames: `kind` at `p`, inside the rule labelled `label` at `q`.
fn frame_pair(p: usize, kind: ErrorKind, q: usize, label: &'static str) -> (r: Vec<(usize, VerboseErrorKind)>)
    ensures
        frames_view(r@) == seq![(p as int, VerboseErrorKind::Nom(kind)), (q as int, VerboseErrorKind::Context(label))],
        r@.len() == 2,
        r@[0].0 == p,
        r@[1].0 == q,
{
    let mut v = Vec::new();
    v.push((p, VerboseErrorKind::Nom(kind)));
    v.push((q, VerboseErrorKind::Context(label)));
    assert(frames_view(v@) =~= seq![(p as int, VerboseErrorKind::Nom(kind)), (q as int, VerboseErrorKind::Context(label))]);
    v
}

/// The position after an optional `,` at `i` and the trivia after it.
fn skip_comma(s: &Vec<char>, i: usize) -> (r: usize)
    requires
        i <= s.len(),
    ensures
        i <= r <= s@.len(),
        r == after_comma(s@, i as int),
{
    if lit_at(s, i, &chars1(',')) {
        skip_trivia(s, i + 1)
    } else {
        skip_trivia(s, i)
    }
}

/// The pairs from `i` on, as `pairs_from` gives them.
fn read_pairs(s: &Vec<char>, i: usize) -> (r: (Vec<Pin>, Vec<Pin>, usize))
    requires
        i <= s.len(),
    ensures
        r.2 <= s@.len(),
        (pins_view(r.0@), pins_view(r.1@), r.2 as int) == pairs_from(s@, i as int),
{
    let mut ins: Vec<Pin> = Vec::new();
    let mut exs: Vec<Pin> = Vec::new();
    let mut j = i;
    loop
        invariant
            i <= j <= s.len(),
            pairs_from(s@, i as int).0 == pins_view(ins@) + pairs_from(s@, j as int).0,
            pairs_from(s@, i as int).1 == pins_view(exs@) + pairs_from(s@, j as int).1,
            pairs_from(s@, i as int).2 == pairs_from(s@, j as int).2,
        ensures
            j <= s.len(),
            pairs_from(s@, i as int).0 == pins_view(ins@) + pairs_from(s@, j as int).0,
            pairs_from(s@, i as int).1 == pins_view(exs@) + pairs_from(s@, j as int).1,
            pairs_from(s@, j as int) == (Seq::<PinView>::empty(), Seq::<PinView>::empty(), j as int),
        decreases s@.len() - j,
    {
        if lit_at(s, j, &chars1(')')) {
            break ;
        }
        let (p1, e1) = read_pin(s, j);
        if p1.name.as_str().is_empty() || !lit_at(s, e1, &chars1('=')) {
            break ;
        }
        let (p2, e2) = read_pin(s, e1 + 1);
        let k = skip_comma(s, e2);
        if p2.name.as_str().is_empty() || !(j < k && k <= s.len()) {
            break ;
        }
        proof {
            let rest = pairs_from(s@, k as int);
            assert(pins_view(ins@.push(p1)) =~= pins_view(ins@).push(p1@));
            assert(pins_view(exs@.push(p2)) =~= pins_view(exs@).push(p2@));
            assert(pins_view(ins@).push(p1@) + rest.0 =~= pins_view(ins@) + (seq![p1@] + rest.0));
            assert(pins_view(exs@).push(p2@) + rest.1 =~= pins_view(exs@) + (seq![p2@] + rest.1));
        }
        ins.push(p1);
        exs.push(p2);
        j = k;
    }
    assert(pins_view(ins@) + Seq::<PinView>::empty() =~= pins_view(ins@));
    assert(pins_view(exs@) + Seq::<PinView>::empty() =~= pins_view(exs@));
    (ins, exs, j)
}

/// The part at `i`, as `part_of` gives it.
pub fn read_part(s: &Vec<char>, i: usize) -> (r: Result<(Part, usize), Vec<(usize, VerboseErrorKind)>>)
    requires
        i <= s.len(),
    ensures
        match r {
            Ok((p, e)) => part_of(s@, i as int) == Ok::<(PartView, int), Frames>((p@, e as int)) && e <= s@.len(),
            Err(f) => part_of(s@, i as int) == Err::<(PartView, int), Frames>(frames_view(f@)) && frames_within(f@, s@.len() as int),
        },
{
    let t = skip_trivia(s, i);
    let n = scan_run(s, t, Stop::NonAlphanumeric);
    if n == t {
        return Err(frame_pair(t, ErrorKind::TakeWhile1, t, IDENT_LABEL));
    }
    let u = skip_trivia(s, n);
    if !lit_at(s, u, &chars1('(')) {
        return Err(frame_pair(u, ErrorKind::Tag, u, OPEN_LABEL));
    }
    let v = skip_trivia(s, u + 1);
    let (ins, exs, k) = read_pairs(s, v);
    if !lit_at(s, k, &chars2(')', ';')) {
        return Err(frame_pair(k, ErrorKind::Tag, k, CLOSE_LABEL));
    }
    let end = skip_trivia(s, k + 2);
    Ok((Part { name: string_of(s, t, n), internal: ins, external: exs }, end))
}

/// The result of `parts_from` with `pre` before its parts.
pub open spec fn parts_after(pre: Seq<PartView>, r: Result<(Seq<PartView>, int), Frames>) -> Result<(Seq<PartView>, int), Frames> {
    match r {
        Ok((ps, j)) => Ok((pre + ps, j)),
        Err(f) => Err(f),
    }
}

/// The parts from `i` on, as `parts_from` gives them.
fn read_parts(s: &Vec<char>, i: usize) -> (r: Result<(Vec<Part>, usize), Vec<(usize, VerboseErrorKind)>>)
    requires
        i <= s.len(),
    ensures
        match r {
            Ok((ps, e)) => parts_from(s@, i as int) == Ok::<(Seq<PartView>, int), Frames>((parts_view(ps@), e as int)) && e <= s@.len(),
            Err(f) => parts_from(s@, i as int) == Err::<(Seq<PartView>, int), Frames>(frames_view(f@)) && frames_within(f@, s@.len() as int),
        },
{
    let mut parts: Vec<Part> = Vec::new();
    let mut j = i;
    assert(parts_view(parts@) =~= Seq::<PartView>::empty());
    assert(parts_after(Seq::<PartView>::empty(), parts_from(s@, i as int)) =~= parts_from(s@, i as int)) by {
        match parts_from(s@, i as int) {
            Ok((ps, k)) => assert(Seq::<PartView>::empty() + ps =~= ps),
            Err(_) => {},
        }
    }
    loop
        invariant
            i <= j <= s.len(),
            parts_from(s@, i as int) == parts_after(parts_view(parts@), parts_from(s@, j as int)),
        decreases s@.len() - j,
    {
        let t = skip_trivia(s, j);
        if scan_run(s, t, Stop::NonAlphanumeric) == t {
            assert(parts_view(parts@) + Seq::<PartView>::empty() =~= parts_view(parts@));
            return Ok((parts, j));
        }
        match read_part(s, j) {
            Ok((p, e)) => {
                if !(j < e && e <= s.len()) {
                    assert(parts_view(parts@) + Seq::<PartView>::empty() =~= parts_view(parts@));
                    return Ok((parts, j));
                }
                proof {
                    assert(parts_view(parts@.push(p)) =~= parts_view(parts@).push(p@));
                    match parts_from(s@, e as int) {
                        Ok((ps, m)) => {
                            assert(parts_view(parts@).push(p@) + ps =~= parts_view(parts@) + (seq![p@] + ps));
                        },
                        Err(_) => {},
                    }
                }
                parts.push(p);
                j = e;
            },
            Err(f) => {
                return Err(f);
            },
        }
    }
}

/// The result of `list_pins` with `pre` before its pins.
pub open spec fn after(pre: Seq<PinView>, r: Result<(Seq<PinView>, int), int>) -> Result<(Seq<PinView>, int), int> {
    match r {
        Ok((ps, j)) => Ok((pre + ps, j)),
        Err(m) => Err(m),
    }
}

/// The pins of a list from `i` to its `;`, as `list_pins` gives them.
fn read_list_pins(s: &Vec<char>, i: usize) -> (r: Result<(Vec<Pin>, usize), usize>)
    requires
        i <= s.len(),
    ensures
        match r {
            Ok((ps, j)) => list_pins(s@, i as int) == Ok::<(Seq<PinView>, int), int>((pins_view(ps@), j as int)) && j < s@.len(),
            Err(m) => list_pins(s@, i as int) == Err::<(Seq<PinView>, int), int>(m as int) && m <= s@.len(),
        },
{
    let mut pins: Vec<Pin> = Vec::new();
    let mut j = i;
    assert(pins_view(pins@) =~= Seq::<PinView>::empty());
    assert(after(Seq::<PinView>::empty(), list_pins(s@, i as int)) =~= list_pins(s@, i as int)) by {
        match list_pins(s@, i as int) {
            Ok((ps, k)) => assert(Seq::<PinView>::empty() + ps =~= ps),
            Err(_) => {},
        }
    }
    loop
        invariant
            i <= j <= s.len(),
            list_pins(s@, i as int) == after(pins_view(pins@), list_pins(s@, j as int)),
        decreases s@.len() - j,
    {
        if j >= s.len() {
            return Err(j);
        }
        if s[j] == ';' {
            assert(pins_view(pins@) + Seq::<PinView>::empty() =~= pins_view(pins@));
            return Ok((pins, j));
        }
        let (p, e) = read_pin(s, j);
        let k = skip_comma(s, e);
        if p.name.as_str().is_empty() || !(j < k && k <= s.len()) {
            return Err(j);
        }
        proof {
            assert(pins_view(pins@.push(p)) =~= pins_view(pins@).push(p@));
            match list_pins(s@, k as int) {
                Ok((ps, m)) => {
                    assert(pins_view(pins@).push(p@) + ps =~= pins_view(pins@) + (seq![p@] + ps));
                },
                Err(_) => {},
            }
        }
        pins.push(p);
        j = k;
    }
}

/// The interface list labelled `label`, searched for from `i` on, as
/// `io_list_of` gives it.
pub fn read_io_pins(s: &Vec<char>, i: usize, label: &'static str) -> (r: Result<(Vec<Pin>, usize), Vec<(usize, VerboseErrorKind)>>)
    requires
        i <= s.len(),
    ensures
        match r {
            Ok((ps, e)) => io_list_of(s@, i as int, label) == Ok::<(Seq<PinView>, int), Frames>((pins_view(ps@), e as int)) && e <= s@.len(),
            Err(f) => io_list_of(s@, i as int, label) == Err::<(Seq<PinView>, int), Frames>(frames_view(f@)) && frames_within(f@, s@.len() as int),
        },
{
    let lit = chars_of(label);
    let t = skip_trivia(s, i);
    let q = match find_lit(s, t, &lit) {
        Some(q) => q,
        None => {
            return Err(frame_pair(t, ErrorKind::TakeUntil, t, label));
        },
    };
    let r = skip_trivia(s, q + lit.len());
    if r < s.len() && s[r] == ';' {
        let mut f = Vec::new();
        f.push((r, VerboseErrorKind::Nom(ErrorKind::Not)));
        f.push((r, VerboseErrorKind::Context(PIN_LABEL)));
        f.push((r, VerboseErrorKind::Nom(ErrorKind::Many1)));
        f.push((t, VerboseErrorKind::Context(label)));
        assert(frames_view(f@) =~= seq![
            (r as int, VerboseErrorKind::Nom(ErrorKind::Not)),
            (r as int, VerboseErrorKind::Context(PIN_LABEL)),
            (r as int, VerboseErrorKind::Nom(ErrorKind::Many1)),
            (t as int, VerboseErrorKind::Context(label)),
        ]);
        return Err(f);
    }
    match read_list_pins(s, r) {
        Err(m) => {
            let mut f = Vec::new();
            f.push((m, VerboseErrorKind::Context(PIN_LABEL)));
            f.push((t, VerboseErrorKind::Context(label)));
            assert(frames_view(f@) =~= seq![
                (m as int, VerboseErrorKind::Context(PIN_LABEL)),
                (t as int, VerboseErrorKind::Context(label)),
            ]);
            Err(f)
        },
        Ok((pins, k)) => Ok((pins, skip_trivia(s, k + 1))),
    }
}

/// The chip that the document `s` declares, as `chip_of` gives it.
pub fn read_chip(s: &Vec<char>) -> (r: Result<Chip, Vec<(usize, VerboseErrorKind)>>)
    ensures
        match r {
            Ok(c) => chip_of(s@) == Ok::<ChipView, Frames>(c@),
            Err(f) => chip_of(s@) == Err::<ChipView, Frames>(frames_view(f@)) && frames_within(f@, s@.len() as int),
        },
{
    let chip = chars_of("CHIP");
    let t0 = skip_trivia(s, 0);
    if !lit_at(s, t0, &chip) {
        return Err(frame_pair(t0, ErrorKind::Tag, t0, CHIP_LABEL));
    }
    let t1 = skip_trivia(s, t0 + chip.len());
    let n = scan_run(s, t1, Stop::NonAlphanumeric);
    let (inputs, i1) = match read_io_pins(s, n, "IN") {
        Ok(x) => x,
        Err(f) => {
            return Err(f);
        },
    };
    let (outputs, i2) = match read_io_pins(s, i1, "OUT") {
        Ok(x) => x,
        Err(f) => {
            return Err(f);
        },
    };
    let parts_lit = chars_of("PARTS:");
    let p = match find_lit(s, i2, &parts_lit) {
        Some(p) => p,
        None => {
            return Err(frame_pair(i2, ErrorKind::TakeUntil, i2, PARTS_LABEL));
        },
    };
    let t = skip_trivia(s, p + parts_lit.len());
    match read_parts(s, t) {
        Ok((parts, _)) => Ok(Chip { name: string_of(s, t1, n), inputs, outputs, parts }),
        Err(f) => Err(f),
    }
}

} // verus!
