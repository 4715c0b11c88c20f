//! A canonical layout of a chip declaration, and the proof that every chip
//! written in it parses back to itself.
use vstd::prelude::*;
use crate::grammar::{after_comma, at, chip_of, find_from, io_list_of, list_pins, multispace, pairs_from, part_of, part_starts, parts_from, pin_index, pin_of, scan, stops_at, trivia_end, trivia_item, Stop};
use crate::model::{ChipView, PartView, PinView};
use crate::text::{alphanumeric, low_byte};

verus! {

/// A name that the grammar reads whole: non-empty, and of ASCII letters and
/// digits (by the low byte of each code point).
pub open spec fn valid_name(n: Seq<char>) -> bool {
    n.len() > 0 && forall|k: int| 0 <= k < n.len() ==> alphanumeric(low_byte(#[trigger] n[k]))
}

/// A pin written by its name alone.
pub open spec fn plain_pin(p: PinView) -> bool {
    valid_name(p.name) && p.start == 0 && p.end == 0
}

pub open spec fn plain_pins(ps: Seq<PinView>) -> bool {
    forall|k: int| 0 <= k < ps.len() ==> plain_pin(#[trigger] ps[k])
}

pub open spec fn valid_part(p: PartView) -> bool {
    valid_name(p.name) && p.wf() && plain_pins(p.internal) && plain_pins(p.external)
}

/// A chip that the canonical layout can write: valid names, pins without
/// index, at least one input and one output.
pub open spec fn valid_chip(c: ChipView) -> bool {
    &&& valid_name(c.name)
    &&& c.inputs.len() >= 1
    &&& c.outputs.len() >= 1
    &&& plain_pins(c.inputs)
    &&& plain_pins(c.outputs)
    &&& forall|k: int| 0 <= k < c.parts.len() ==> valid_part(#[trigger] c.parts[k])
}

/// Pin names separated by `, `.
pub open spec fn pins_text(ps: Seq<PinView>) -> Seq<char>
    decreases ps.len(),
{
    if ps.len() == 0 {
        seq![]
    } else if ps.len() == 1 {
        ps[0].name
    } else {
        ps[0].name + seq![',', ' '] + pins_text(ps.drop_first())
    }
}

/// `a=b, c=d`: the pairs of a part.
pub open spec fn pairs_text(ins: Seq<PinView>, exs: Seq<PinView>) -> Seq<char>
    decreases ins.len(),
{
    if ins.len() == 0 || exs.len() == 0 {
        seq![]
    } else if ins.len() == 1 {
        ins[0].name + seq!['='] + exs[0].name
    } else {
        ins[0].name + seq!['='] + exs[0].name + seq![',', ' '] + pairs_text(ins.drop_first(), exs.drop_first())
    }
}

/// `Name(a=b, c=d);`
pub open spec fn part_text(p: PartView) -> Seq<char> {
    p.name + seq!['('] + pairs_text(p.internal, p.external) + seq![')', ';']
}

/// Each part followed by a space.
pub open spec fn parts_text(ps: Seq<PartView>) -> Seq<char>
    decreases ps.len(),
{
    if ps.len() == 0 {
        seq![]
    } else {
        part_text(ps[0]) + seq![' '] + parts_text(ps.drop_first())
    }
}

/// `CHIP Name IN a, b; OUT c; PARTS: P(x=a); `
pub open spec fn chip_text(c: ChipView) -> Seq<char> {
    seq!['C', 'H', 'I', 'P', ' '] + c.name + seq![' ', 'I', 'N', ' '] + pins_text(c.inputs) + seq![
        ';',
        ' ',
        'O',
        'U',
        'T',
        ' ',
    ] + pins_text(c.outputs) + seq![';', ' ', 'P', 'A', 'R', 'T', 'S', ':', ' '] + parts_text(c.parts)
}

/// No trivia starts at `j`.
pub open spec fn solid_at(s: Seq<char>, j: int) -> bool {
    j >= s.len() || (!multispace(s[j]) && s[j] != '/')
}

proof fn lemma_name_char(c: char)
    requires
        alphanumeric(low_byte(c)),
    ensures
        !stops_at(Stop::Delimiter, c),
        !stops_at(Stop::NonAlphanumeric, c),
        !multispace(c),
        c != '/',
        c != ';',
        c != ')',
        c != '[',
{
}

proof fn lemma_solid(s: Seq<char>, j: int)
    requires
        0 <= j,
        solid_at(s, j),
    ensures
        trivia_end(s, j) == j,
{
    assert(trivia_item(s, j) is None) by {
        if j < s.len() {
            assert(!at(s, j, seq!['/', '/']) && !at(s, j, seq!['/', '*', '*'])) by {
                if at(s, j, seq!['/', '/']) {
                    assert(s.subrange(j, j + 2)[0] == s[j]);
                }
                if at(s, j, seq!['/', '*', '*']) {
                    assert(s.subrange(j, j + 3)[0] == s[j]);
                }
            }
        }
    }
}

proof fn lemma_space(s: Seq<char>, j: int)
    requires
        0 <= j < s.len(),
        s[j] == ' ',
        solid_at(s, j + 1),
    ensures
        trivia_end(s, j) == j + 1,
{
    lemma_solid(s, j + 1);
}

proof fn lemma_at_char(s: Seq<char>, i: int, w: Seq<char>, k: int)
    requires
        at(s, i, w),
        0 <= k < w.len(),
    ensures
        s[i + k] == w[k],
{
    assert(s.subrange(i, i + w.len())[k] == s[i + k]);
}

proof fn lemma_scan_name(s: Seq<char>, i: int, n: Seq<char>, stop: Stop)
    requires
        at(s, i, n),
        forall|k: int| 0 <= k < n.len() ==> !stops_at(stop, #[trigger] n[k]),
        i + n.len() >= s.len() || stops_at(stop, s[i + n.len()]),
    ensures
        scan(s, i, stop) == i + n.len(),
    decreases n.len(),
{
    if n.len() > 0 {
        lemma_at_char(s, i, n, 0);
        assert(at(s, i + 1, n.drop_first())) by {
            assert(s.subrange(i + 1, i + 1 + n.drop_first().len()) =~= n.drop_first()) by {
                assert forall|k: int| 0 <= k < n.len() - 1 implies s.subrange(i + 1, i + n.len())[k]
                    == n.drop_first()[k] by {
                    lemma_at_char(s, i, n, k + 1);
                }
            }
        }
        lemma_scan_name(s, i + 1, n.drop_first(), stop);
    }
}

/// A pin name at `i`, followed by a character that ends it.
proof fn lemma_pin_name(s: Seq<char>, i: int, p: PinView)
    requires
        plain_pin(p),
        at(s, i, p.name),
        i + p.name.len() < s.len(),
        ({
            let c = s[i + p.name.len()];
            c == ',' || c == ';' || c == '=' || c == ')'
        }),
    ensures
        pin_of(s, i) == (p, i + p.name.len()),
{
    let j = i + p.name.len();
    lemma_at_char(s, i, p.name, 0);
    lemma_name_char(p.name[0]);
    lemma_solid(s, i);
    assert forall|k: int| 0 <= k < p.name.len() implies !stops_at(Stop::Delimiter, #[trigger] p.name[k]) by {
        lemma_name_char(p.name[k]);
    }
    lemma_scan_name(s, i, p.name, Stop::Delimiter);
    lemma_solid(s, j);
    assert(!at(s, j, seq!['['])) by {
        if at(s, j, seq!['[']) {
            lemma_at_char(s, j, seq!['['], 0);
        }
    }
    assert(pin_index(s, j) is None);
    assert(s.subrange(i, j) == p.name);
}

/// `at` of a concatenation holds of its parts.
proof fn lemma_at_split(s: Seq<char>, i: int, a: Seq<char>, b: Seq<char>)
    requires
        at(s, i, a + b),
    ensures
        at(s, i, a),
        at(s, i + a.len(), b),
{
    assert(s.subrange(i, i + a.len()) =~= a) by {
        assert forall|k: int| 0 <= k < a.len() implies s.subrange(i, i + a.len())[k] == a[k] by {
            lemma_at_char(s, i, a + b, k);
        }
    }
    assert(s.subrange(i + a.len(), i + a.len() + b.len()) =~= b) by {
        assert forall|k: int| 0 <= k < b.len() implies s.subrange(i + a.len(), i + a.len() + b.len())[k]
            == b[k] by {
            lemma_at_char(s, i, a + b, a.len() + k);
        }
    }
}

/// The pins of an interface list written by `pins_text`, up to its `;`.
proof fn lemma_list(s: Seq<char>, i: int, ps: Seq<PinView>)
    requires
        ps.len() >= 1,
        plain_pins(ps),
        at(s, i, pins_text(ps) + seq![';']),
    ensures
        list_pins(s, i) == Ok::<(Seq<PinView>, int), int>((ps, i + pins_text(ps).len())),
    decreases ps.len(),
{
    let p = ps[0];
    assert(plain_pin(p));
    let j = i + p.name.len();
    if ps.len() == 1 {
        assert(pins_text(ps) == p.name);
        lemma_at_split(s, i, p.name, seq![';']);
        lemma_at_char(s, j, seq![';'], 0);
    } else {
        let rest = ps.drop_first();
        assert(plain_pins(rest)) by {
            assert forall|k: int| 0 <= k < rest.len() implies plain_pin(#[trigger] rest[k]) by {
                assert(rest[k] == ps[k + 1]);
            }
        }
        assert(pins_text(ps) + seq![';'] =~= p.name + (seq![',', ' '] + (pins_text(rest) + seq![';'])));
        lemma_at_split(s, i, p.name, seq![',', ' '] + (pins_text(rest) + seq![';']));
        lemma_at_split(s, j, seq![',', ' '], pins_text(rest) + seq![';']);
        lemma_at_char(s, j, seq![',', ' '], 0);
        lemma_at_char(s, j, seq![',', ' '], 1);
        lemma_at_char(s, j + 2, pins_text(rest) + seq![';'], 0);
        assert(pins_text(rest).len() >= 1 && (pins_text(rest) + seq![';'])[0] == rest[0].name[0]) by {
            assert(plain_pin(rest[0]));
            if rest.len() > 1 {
                assert(pins_text(rest) == rest[0].name + seq![',', ' '] + pins_text(rest.drop_first()));
            }
        }
        lemma_name_char(rest[0].name[0]);
    }
    lemma_at_char(s, i, pins_text(ps) + seq![';'], 0);
    lemma_name_char(p.name[0]);
    lemma_pin_name(s, i, p);
    if ps.len() == 1 {
        assert(!at(s, j, seq![','])) by {
            if at(s, j, seq![',']) {
                lemma_at_char(s, j, seq![','], 0);
            }
        }
        lemma_solid(s, j);
        assert(after_comma(s, j) == j);
        assert(list_pins(s, j) == Ok::<(Seq<PinView>, int), int>((Seq::<PinView>::empty(), j)));
        assert(seq![p] + Seq::<PinView>::empty() =~= ps);
    } else {
        let rest = ps.drop_first();
        assert(at(s, j, seq![','])) by {
            assert(s.subrange(j, j + 1) =~= seq![',']);
        }
        lemma_space(s, j + 1);
        assert(after_comma(s, j) == j + 2);
        lemma_list(s, j + 2, rest);
        assert(seq![p] + rest =~= ps);
        assert(pins_text(ps).len() == p.name.len() + 2 + pins_text(rest).len());
    }
}

/// The pairs written by `pairs_text`, up to the `)` after them.
proof fn lemma_pairs(s: Seq<char>, i: int, ins: Seq<PinView>, exs: Seq<PinView>)
    requires
        ins.len() == exs.len(),
        plain_pins(ins),
        plain_pins(exs),
        at(s, i, pairs_text(ins, exs) + seq![')']),
    ensures
        pairs_from(s, i) == (ins, exs, i + pairs_text(ins, exs).len()),
    decreases ins.len(),
{
    if ins.len() == 0 {
        assert(pairs_text(ins, exs) =~= Seq::<char>::empty());
        assert(pairs_text(ins, exs) + seq![')'] =~= seq![')']);
        assert(ins =~= Seq::<PinView>::empty() && exs =~= Seq::<PinView>::empty());
        assert(at(s, i, seq![')']));
    } else {
        let a = ins[0];
        let b = exs[0];
        assert(plain_pin(a) && plain_pin(b));
        let j1 = i + a.name.len();
        let j2 = j1 + 1 + b.name.len();
        let tail = if ins.len() == 1 {
            seq![')']
        } else {
            seq![',', ' '] + (pairs_text(ins.drop_first(), exs.drop_first()) + seq![')'])
        };
        assert(pairs_text(ins, exs) + seq![')'] =~= a.name + (seq!['='] + (b.name + tail)));
        lemma_at_split(s, i, a.name, seq!['='] + (b.name + tail));
        lemma_at_split(s, j1, seq!['='], b.name + tail);
        lemma_at_split(s, j1 + 1, b.name, tail);
        lemma_at_char(s, j1, seq!['='], 0);
        lemma_at_char(s, j2, tail, 0);
        lemma_at_char(s, i, a.name, 0);
        lemma_name_char(a.name[0]);
        assert(!at(s, i, seq![')'])) by {
            if at(s, i, seq![')']) {
                lemma_at_char(s, i, seq![')'], 0);
            }
        }
        lemma_pin_name(s, i, a);
        assert(at(s, j1, seq!['='])) by {
            assert(s.subrange(j1, j1 + 1) =~= seq!['=']);
        }
        lemma_pin_name(s, j1 + 1, b);
        if ins.len() == 1 {
            assert(!at(s, j2, seq![','])) by {
                if at(s, j2, seq![',']) {
                    lemma_at_char(s, j2, seq![','], 0);
                }
            }
            lemma_solid(s, j2);
            assert(pairs_text(ins, exs).len() == j2 - i);
            lemma_at_char(s, j2, tail, 0);
            assert(at(s, j2, seq![')'])) by {
                assert(s.subrange(j2, j2 + 1) =~= seq![')']);
            }
            assert(pairs_from(s, j2) == (Seq::<PinView>::empty(), Seq::<PinView>::empty(), j2));
            assert(seq![a] + Seq::<PinView>::empty() =~= ins);
            assert(seq![b] + Seq::<PinView>::empty() =~= exs);
        } else {
            let ri = ins.drop_first();
            let re = exs.drop_first();
            assert(plain_pins(ri)) by {
                assert forall|k: int| 0 <= k < ri.len() implies plain_pin(#[trigger] ri[k]) by {
                    assert(ri[k] == ins[k + 1]);
                }
            }
            assert(plain_pins(re)) by {
                assert forall|k: int| 0 <= k < re.len() implies plain_pin(#[trigger] re[k]) by {
                    assert(re[k] == exs[k + 1]);
                }
            }
            lemma_at_split(s, j2, seq![',', ' '], pairs_text(ri, re) + seq![')']);
            lemma_at_char(s, j2, seq![',', ' '], 1);
            lemma_at_char(s, j2 + 2, pairs_text(ri, re) + seq![')'], 0);
            assert(pairs_text(ri, re).len() >= 1 && (pairs_text(ri, re) + seq![')'])[0] == ri[0].name[0]) by {
                assert(plain_pin(ri[0]));
                if ri.len() > 1 {
                    assert(pairs_text(ri, re) == ri[0].name + seq!['='] + re[0].name + seq![',', ' '] + pairs_text(ri.drop_first(), re.drop_first()));
                } else {
                    assert(pairs_text(ri, re) == ri[0].name + seq!['='] + re[0].name);
                }
            }
            lemma_name_char(ri[0].name[0]);
            assert(at(s, j2, seq![','])) by {
                assert(s.subrange(j2, j2 + 1) =~= seq![',']);
            }
            lemma_space(s, j2 + 1);
            lemma_pairs(s, j2 + 2, ri, re);
            assert(seq![a] + ri =~= ins);
            assert(seq![b] + re =~= exs);
        }
    }
}

/// `at` of two adjacent pieces holds of their concatenation.
proof fn lemma_at_join(s: Seq<char>, i: int, a: Seq<char>, b: Seq<char>)
    requires
        at(s, i, a),
        at(s, i + a.len(), b),
    ensures
        at(s, i, a + b),
{
    assert(s.subrange(i, i + a.len() + b.len()) =~= a + b) by {
        assert forall|k: int| 0 <= k < a.len() + b.len() implies s.subrange(i, i + a.len() + b.len())[k]
            == (a + b)[k] by {
            if k < a.len() {
                lemma_at_char(s, i, a, k);
            } else {
                lemma_at_char(s, i + a.len(), b, k - a.len());
            }
        }
    }
}

/// A valid name starts with a character that is no trivia and no delimiter.
proof fn lemma_name_start(n: Seq<char>)
    requires
        valid_name(n),
    ensures
        !multispace(n[0]) && n[0] != '/' && n[0] != ';' && n[0] != ')',
        !stops_at(Stop::NonAlphanumeric, n[0]),
{
    lemma_name_char(n[0]);
}

/// The part written by `part_text`, and a space after it.
proof fn lemma_part(s: Seq<char>, i: int, p: PartView)
    requires
        valid_part(p),
        at(s, i, part_text(p) + seq![' ']),
        solid_at(s, i + part_text(p).len() + 1),
    ensures
        part_of(s, i) == Ok::<(PartView, int), crate::grammar::Frames>((p, i + part_text(p).len() + 1)),
{
    let pt = pairs_text(p.internal, p.external);
    let n = i + p.name.len();
    let v = n + 1;
    let k = v + pt.len();
    assert(part_text(p) + seq![' '] =~= p.name + (seq!['('] + (pt + seq![')', ';', ' '])));
    lemma_at_split(s, i, p.name, seq!['('] + (pt + seq![')', ';', ' ']));
    lemma_at_split(s, n, seq!['('], pt + seq![')', ';', ' ']);
    lemma_at_split(s, v, pt, seq![')', ';', ' ']);
    lemma_at_char(s, n, seq!['('], 0);
    lemma_at_char(s, k, seq![')', ';', ' '], 0);
    lemma_at_char(s, k, seq![')', ';', ' '], 2);
    lemma_at_char(s, i, p.name, 0);
    lemma_name_start(p.name);
    lemma_solid(s, i);
    assert forall|m: int| 0 <= m < p.name.len() implies !stops_at(Stop::NonAlphanumeric, #[trigger] p.name[m]) by {
        lemma_name_char(p.name[m]);
    }
    lemma_scan_name(s, i, p.name, Stop::NonAlphanumeric);
    lemma_solid(s, n);
    assert(at(s, n, seq!['('])) by {
        assert(s.subrange(n, n + 1) =~= seq!['(']);
    }
    assert(solid_at(s, v)) by {
        if pt.len() > 0 {
            lemma_at_char(s, v, pt, 0);
            assert(pt[0] == p.internal[0].name[0]) by {
                assert(plain_pin(p.internal[0]));
                if p.internal.len() > 1 {
                    assert(pt == p.internal[0].name + seq!['='] + p.external[0].name + seq![',', ' '] + pairs_text(p.internal.drop_first(), p.external.drop_first()));
                } else {
                    assert(pt == p.internal[0].name + seq!['='] + p.external[0].name);
                }
            }
            assert(plain_pin(p.internal[0]));
            lemma_name_start(p.internal[0].name);
        }
    }
    lemma_solid(s, v);
    assert(at(s, k, seq![')'])) by {
        assert(s.subrange(k, k + 1) =~= seq![')']);
    }
    lemma_at_join(s, v, pt, seq![')']);
    lemma_pairs(s, v, p.internal, p.external);
    assert(at(s, k, seq![')', ';'])) by {
        lemma_at_char(s, k, seq![')', ';', ' '], 1);
        assert(s.subrange(k, k + 2) =~= seq![')', ';']);
    }
    lemma_space(s, k + 2);
    assert(s.subrange(i, n) == p.name);
}

/// A part's name starts where `part_text` writes a part.
proof fn lemma_part_starts(s: Seq<char>, i: int, p: PartView)
    requires
        valid_part(p),
        at(s, i, part_text(p)),
    ensures
        part_starts(s, i),
{
    let rest = seq!['('] + pairs_text(p.internal, p.external) + seq![')', ';'];
    assert(part_text(p) == p.name + rest);
    lemma_at_split(s, i, p.name, rest);
    lemma_at_char(s, i, p.name, 0);
    lemma_name_start(p.name);
    lemma_solid(s, i);
    lemma_at_char(s, i + p.name.len(), rest, 0);
    assert forall|m: int| 0 <= m < p.name.len() implies !stops_at(Stop::NonAlphanumeric, #[trigger] p.name[m]) by {
        lemma_name_char(p.name[m]);
    }
    lemma_scan_name(s, i, p.name, Stop::NonAlphanumeric);
}

/// The parts written by `parts_text`, up to the end of the text.
proof fn lemma_parts(s: Seq<char>, i: int, ps: Seq<PartView>)
    requires
        0 <= i,
        forall|k: int| 0 <= k < ps.len() ==> valid_part(#[trigger] ps[k]),
        at(s, i, parts_text(ps)),
        i + parts_text(ps).len() == s.len(),
    ensures
        parts_from(s, i) == Ok::<(Seq<PartView>, int), crate::grammar::Frames>((ps, s.len() as int)),
    decreases ps.len(),
{
    if ps.len() == 0 {
        lemma_solid(s, i);
        assert(!part_starts(s, i));
        assert(ps =~= Seq::<PartView>::empty());
    } else {
        let p = ps[0];
        let rest = ps.drop_first();
        let e = i + part_text(p).len() + 1;
        assert(valid_part(p));
        assert forall|k: int| 0 <= k < rest.len() implies valid_part(#[trigger] rest[k]) by {
            assert(rest[k] == ps[k + 1]);
        }
        assert(parts_text(ps) == (part_text(p) + seq![' ']) + parts_text(rest));
        lemma_at_split(s, i, part_text(p) + seq![' '], parts_text(rest));
        assert(solid_at(s, e)) by {
            if rest.len() > 0 {
                lemma_at_char(s, e, parts_text(rest), 0);
                assert(valid_part(rest[0]));
                assert(parts_text(rest) == part_text(rest[0]) + seq![' '] + parts_text(rest.drop_first()));
                lemma_name_start(rest[0].name);
            }
        }
        lemma_part(s, i, p);
        lemma_parts(s, e, rest);
        lemma_at_split(s, i, part_text(p), seq![' ']);
        lemma_part_starts(s, i, p);
        assert(part_of(s, i) == Ok::<(PartView, int), crate::grammar::Frames>((p, e)));
        assert(parts_from(s, e) == Ok::<(Seq<PartView>, int), crate::grammar::Frames>((rest, s.len() as int)));
        assert(seq![p] + rest =~= ps);
    }
}

/// A valid pin list's text starts with the first pin's name.
proof fn lemma_pins_text_start(ps: Seq<PinView>)
    requires
        ps.len() >= 1,
        plain_pins(ps),
    ensures
        pins_text(ps).len() >= 1,
        pins_text(ps)[0] == ps[0].name[0],
        !multispace(pins_text(ps)[0]) && pins_text(ps)[0] != '/' && pins_text(ps)[0] != ';',
{
    assert(plain_pin(ps[0]));
    if ps.len() > 1 {
        assert(pins_text(ps) == ps[0].name + seq![',', ' '] + pins_text(ps.drop_first()));
    }
    lemma_name_start(ps[0].name);
}

/// An interface list written as ` L pins;` from `i`, with `L` at `i + 1`
/// and a space and solid text after the `;`.
proof fn lemma_io_list(s: Seq<char>, i: int, label: &'static str, ps: Seq<PinView>)
    requires
        0 <= i,
        label@.len() > 0,
        ps.len() >= 1,
        plain_pins(ps),
        at(s, i, seq![' '] + label@ + seq![' '] + pins_text(ps) + seq![';', ' ']),
        solid_at(s, i + label@.len() + 2 + pins_text(ps).len() + 2),
        !multispace(label@[0]) && label@[0] != '/',
    ensures
        io_list_of(s, i, label) == Ok::<(Seq<PinView>, int), crate::grammar::Frames>(
            (ps, i + label@.len() + 2 + pins_text(ps).len() + 2),
        ),
{
    let l = label@;
    let t: int = i + 1;
    let r: int = t + l.len() + 1;
    let k: int = r + pins_text(ps).len();
    let whole = seq![' '] + l + seq![' '] + pins_text(ps) + seq![';', ' '];
    assert(whole =~= seq![' '] + (l + (seq![' '] + (pins_text(ps) + seq![';', ' ']))));
    lemma_at_split(s, i, seq![' '], l + (seq![' '] + (pins_text(ps) + seq![';', ' '])));
    lemma_at_split(s, t, l, seq![' '] + (pins_text(ps) + seq![';', ' ']));
    lemma_at_split(s, t + l.len(), seq![' '], pins_text(ps) + seq![';', ' ']);
    lemma_at_split(s, r, pins_text(ps), seq![';', ' ']);
    lemma_at_char(s, i, seq![' '], 0);
    lemma_at_char(s, t, l, 0);
    lemma_at_char(s, t + l.len(), seq![' '], 0);
    lemma_at_char(s, k, seq![';', ' '], 0);
    lemma_at_char(s, k, seq![';', ' '], 1);
    lemma_pins_text_start(ps);
    lemma_at_char(s, r, pins_text(ps), 0);
    lemma_space(s, i);
    assert(find_from(s, t, l) == Some(t));
    lemma_space(s, t + l.len());
    assert(at(s, k, seq![';'])) by {
        assert(s.subrange(k, k + 1) =~= seq![';']);
    }
    lemma_at_join(s, r, pins_text(ps), seq![';']);
    lemma_list(s, r, ps);
    lemma_space(s, k + 1);
}

/// The facts about the head of a chip's text: `CHIP`, then its name.
proof fn lemma_chip_head(s: Seq<char>, c: ChipView)
    requires
        valid_name(c.name),
        at(s, 0, seq!['C', 'H', 'I', 'P', ' ']),
        at(s, 5, c.name),
        at(s, 5 + c.name.len() as int, seq![' ', 'I', 'N', ' ']),
    ensures
        trivia_end(s, 0) == 0,
        at(s, 0, "CHIP"@),
        "CHIP"@.len() == 4,
        trivia_end(s, 4) == 5,
        scan(s, 5, Stop::NonAlphanumeric) == 5 + c.name.len(),
        s.subrange(5, 5 + c.name.len() as int) == c.name,
{
    let p0 = seq!['C', 'H', 'I', 'P', ' '];
    let n: int = 5 + c.name.len() as int;
    reveal_strlit("CHIP");
    lemma_at_char(s, 0, p0, 0);
    lemma_solid(s, 0);
    assert(s.subrange(0, 4) =~= "CHIP"@) by {
        assert forall|m: int| 0 <= m < 4 implies s.subrange(0, 4)[m] == "CHIP"@[m] by {
            lemma_at_char(s, 0, p0, m);
        }
    }
    lemma_at_char(s, 0, p0, 4);
    lemma_at_char(s, 5, c.name, 0);
    lemma_name_start(c.name);
    lemma_space(s, 4);
    lemma_at_char(s, n, seq![' ', 'I', 'N', ' '], 0);
    assert forall|m: int| 0 <= m < c.name.len() implies !stops_at(Stop::NonAlphanumeric, #[trigger] c.name[m]) by {
        lemma_name_char(c.name[m]);
    }
    lemma_scan_name(s, 5, c.name, Stop::NonAlphanumeric);
}

/// The facts about the interface lists of a chip's text.
proof fn lemma_chip_lists(s: Seq<char>, c: ChipView, n: int, k1: int, k2: int)
    requires
        valid_chip(c),
        0 <= n,
        k1 == n + 4 + pins_text(c.inputs).len(),
        k2 == k1 + 6 + pins_text(c.outputs).len(),
        at(s, n, seq![' ', 'I', 'N', ' ']),
        at(s, n + 4, pins_text(c.inputs)),
        at(s, k1, seq![';', ' ', 'O', 'U', 'T', ' ']),
        at(s, k1 + 6, pins_text(c.outputs)),
        at(s, k2, seq![';', ' ', 'P', 'A', 'R', 'T', 'S', ':', ' ']),
    ensures
        io_list_of(s, n, "IN") == Ok::<(Seq<PinView>, int), crate::grammar::Frames>((c.inputs, k1 + 2)),
        io_list_of(s, k1 + 2, "OUT") == Ok::<(Seq<PinView>, int), crate::grammar::Frames>((c.outputs, k2 + 2)),
{
    let ins = pins_text(c.inputs);
    let outs = pins_text(c.outputs);
    let p1 = seq![' ', 'I', 'N', ' '];
    let p2 = seq![';', ' ', 'O', 'U', 'T', ' '];
    let p3 = seq![';', ' ', 'P', 'A', 'R', 'T', 'S', ':', ' '];
    reveal_strlit("IN");
    reveal_strlit("OUT");
    assert(at(s, k1, seq![';', ' '])) by {
        lemma_at_char(s, k1, p2, 0);
        lemma_at_char(s, k1, p2, 1);
        assert(s.subrange(k1, k1 + 2) =~= seq![';', ' ']);
    }
    lemma_at_join(s, n, p1, ins);
    lemma_at_join(s, n, p1 + ins, seq![';', ' ']);
    assert(seq![' '] + "IN"@ + seq![' '] + ins + seq![';', ' '] =~= p1 + ins + seq![';', ' ']);
    lemma_at_char(s, k1, p2, 2);
    lemma_io_list(s, n, "IN", c.inputs);
    assert(at(s, k1 + 1, p2.drop_first())) by {
        assert forall|m: int| 0 <= m < 5 implies s.subrange(k1 + 1, k1 + 6)[m] == p2.drop_first()[m] by {
            lemma_at_char(s, k1, p2, m + 1);
        }
        assert(s.subrange(k1 + 1, k1 + 6) =~= p2.drop_first());
    }
    assert(at(s, k2, seq![';', ' '])) by {
        lemma_at_char(s, k2, p3, 0);
        lemma_at_char(s, k2, p3, 1);
        assert(s.subrange(k2, k2 + 2) =~= seq![';', ' ']);
    }
    lemma_at_join(s, k1 + 1, p2.drop_first(), outs);
    lemma_at_join(s, k1 + 1, p2.drop_first() + outs, seq![';', ' ']);
    assert(seq![' '] + "OUT"@ + seq![' '] + outs + seq![';', ' '] =~= p2.drop_first() + outs + seq![';', ' ']);
    lemma_at_char(s, k2, p3, 2);
    lemma_io_list(s, k1 + 1, "OUT", c.outputs);
}

/// The facts about the `PARTS:` section of a chip's text.
proof fn lemma_chip_parts(s: Seq<char>, c: ChipView, k2: int)
    requires
        valid_chip(c),
        0 <= k2,
        at(s, k2, seq![';', ' ', 'P', 'A', 'R', 'T', 'S', ':', ' ']),
        at(s, k2 + 9, parts_text(c.parts)),
        k2 + 9 + parts_text(c.parts).len() == s.len(),
    ensures
        find_from(s, k2 + 2, "PARTS:"@) == Some(k2 + 2),
        "PARTS:"@.len() == 6,
        trivia_end(s, k2 + 8) == k2 + 9,
        parts_from(s, k2 + 9) == Ok::<(Seq<PartView>, int), crate::grammar::Frames>((c.parts, s.len() as int)),
{
    let p3 = seq![';', ' ', 'P', 'A', 'R', 'T', 'S', ':', ' '];
    let r3 = k2 + 9;
    reveal_strlit("PARTS:");
    assert(at(s, k2 + 2, "PARTS:"@)) by {
        assert forall|m: int| 0 <= m < 6 implies s.subrange(k2 + 2, k2 + 8)[m] == "PARTS:"@[m] by {
            lemma_at_char(s, k2, p3, m + 2);
        }
        assert(s.subrange(k2 + 2, k2 + 8) =~= "PARTS:"@);
    }
    lemma_at_char(s, k2, p3, 8);
    assert(solid_at(s, r3)) by {
        if c.parts.len() > 0 {
            lemma_at_char(s, r3, parts_text(c.parts), 0);
            assert(valid_part(c.parts[0]));
            assert(parts_text(c.parts) == part_text(c.parts[0]) + seq![' '] + parts_text(c.parts.drop_first()));
            lemma_name_start(c.parts[0].name);
        }
    }
    lemma_space(s, k2 + 8);
    lemma_parts(s, r3, c.parts);
}

/// `chip_of` from the facts about the pieces of a chip's text.
proof fn lemma_chip_of_pieces(s: Seq<char>, c: ChipView, k1: int, k2: int)
    requires
        trivia_end(s, 0) == 0,
        at(s, 0, "CHIP"@),
        "CHIP"@.len() == 4,
        trivia_end(s, 4) == 5,
        scan(s, 5, Stop::NonAlphanumeric) == 5 + c.name.len(),
        s.subrange(5, 5 + c.name.len() as int) == c.name,
        io_list_of(s, 5 + c.name.len() as int, "IN") == Ok::<(Seq<PinView>, int), crate::grammar::Frames>((c.inputs, k1 + 2)),
        io_list_of(s, k1 + 2, "OUT") == Ok::<(Seq<PinView>, int), crate::grammar::Frames>((c.outputs, k2 + 2)),
        find_from(s, k2 + 2, "PARTS:"@) == Some(k2 + 2),
        "PARTS:"@.len() == 6,
        trivia_end(s, k2 + 8) == k2 + 9,
        parts_from(s, k2 + 9) == Ok::<(Seq<PartView>, int), crate::grammar::Frames>((c.parts, s.len() as int)),
    ensures
        chip_of(s) == Ok::<ChipView, crate::grammar::Frames>(c),
{
}

/// The text of a chip, cut into its pieces.
proof fn lemma_chip_text_pieces(c: ChipView)
    ensures
        ({
            let s = chip_text(c);
            let n: int = 5 + c.name.len() as int;
            let k1: int = n + 4 + pins_text(c.inputs).len();
            let k2: int = k1 + 6 + pins_text(c.outputs).len();
            &&& at(s, 0, seq!['C', 'H', 'I', 'P', ' '])
            &&& at(s, 5, c.name)
            &&& at(s, n, seq![' ', 'I', 'N', ' '])
            &&& at(s, n + 4, pins_text(c.inputs))
            &&& at(s, k1, seq![';', ' ', 'O', 'U', 'T', ' '])
            &&& at(s, k1 + 6, pins_text(c.outputs))
            &&& at(s, k2, seq![';', ' ', 'P', 'A', 'R', 'T', 'S', ':', ' '])
            &&& at(s, k2 + 9, parts_text(c.parts))
            &&& k2 + 9 + parts_text(c.parts).len() == s.len()
        }),
{
    let s = chip_text(c);
    let p0 = seq!['C', 'H', 'I', 'P', ' '];
    let p1 = seq![' ', 'I', 'N', ' '];
    let p2 = seq![';', ' ', 'O', 'U', 'T', ' '];
    let p3 = seq![';', ' ', 'P', 'A', 'R', 'T', 'S', ':', ' '];
    let a1 = p0 + c.name;
    let a2 = a1 + p1;
    let a3 = a2 + pins_text(c.inputs);
    let a4 = a3 + p2;
    let a5 = a4 + pins_text(c.outputs);
    let a6 = a5 + p3;
    assert(s == a6 + parts_text(c.parts));
    assert(at(s, 0, s)) by {
        assert(s.subrange(0, s.len() as int) =~= s);
    }
    lemma_at_split(s, 0, a6, parts_text(c.parts));
    lemma_at_split(s, 0, a5, p3);
    lemma_at_split(s, 0, a4, pins_text(c.outputs));
    lemma_at_split(s, 0, a3, p2);
    lemma_at_split(s, 0, a2, pins_text(c.inputs));
    lemma_at_split(s, 0, a1, p1);
    lemma_at_split(s, 0, p0, c.name);
}

/// Every chip that the canonical layout can write parses back to itself:
/// the text `chip_text(c)` is accepted, and gives `c`.
pub proof fn lemma_canonical_text_parses(c: ChipView)
    requires
        valid_chip(c),
    ensures
        chip_of(chip_text(c)) == Ok::<ChipView, crate::grammar::Frames>(c),
{
    let s = chip_text(c);
    let n: int = 5 + c.name.len() as int;
    let k1: int = n + 4 + pins_text(c.inputs).len();
    let k2: int = k1 + 6 + pins_text(c.outputs).len();
    lemma_chip_text_pieces(c);
    lemma_chip_head(s, c);
    lemma_chip_lists(s, c, n, k1, k2);
    lemma_chip_parts(s, c, k2);
    lemma_chip_of_pieces(s, c, k1, k2);
}

} // verus!
