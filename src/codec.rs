//! The text form of a list of bytes: decimal numbers separated by commas,
//! such as `3,4,2,2,3`.

use vstd::prelude::*;

verus! {

/// The byte that separates two fields: an ASCII comma.
pub const FIELD_SEPARATOR: u8 = 44;

/// The ASCII code of the digit zero.
pub const DIGIT_ZERO: u8 = 48;

pub open spec fn is_digit(b: u8) -> bool {
    DIGIT_ZERO <= b <= DIGIT_ZERO + 9
}

/// The number that a string of decimal digits denotes.
pub open spec fn decimal_value(s: Seq<u8>) -> nat
    decreases s.len(),
{
    if s.len() == 0 {
        0
    } else {
        decimal_value(s.drop_last()) * 10 + (s.last() - DIGIT_ZERO) as nat
    }
}

/// A field that denotes a byte: at least one digit, nothing but digits, and a
/// value of at most 255.
pub open spec fn is_byte_numeral(s: Seq<u8>) -> bool {
    &&& s.len() > 0
    &&& forall|i: int| 0 <= i < s.len() ==> is_digit(#[trigger] s[i])
    &&& decimal_value(s) <= u8::MAX
}

/// The fields of `s` between separators. The text without any separator is
/// one field, and so is the empty text.
pub open spec fn split_fields(s: Seq<u8>) -> Seq<Seq<u8>>
    decreases s.len(),
{
    if s.len() == 0 {
        seq![Seq::<u8>::empty()]
    } else {
        let p = split_fields(s.drop_last());
        if s.last() == FIELD_SEPARATOR {
            p.push(Seq::<u8>::empty())
        } else {
            p.update(p.len() - 1, p.last().push(s.last()))
        }
    }
}

/// The bytes that a text denotes, if each of its fields denotes one.
pub open spec fn parse_spec(s: Seq<u8>) -> Option<Seq<u8>> {
    let fields = split_fields(s);
    if forall|i: int| 0 <= i < fields.len() ==> is_byte_numeral(#[trigger] fields[i]) {
        Some(fields.map_values(|f: Seq<u8>| decimal_value(f) as u8))
    } else {
        None
    }
}

/// The shortest decimal numeral of `n`.
pub open spec fn numeral(n: nat) -> Seq<u8>
    decreases n,
{
    if n < 10 {
        seq![(DIGIT_ZERO + n) as u8]
    } else {
        numeral(n / 10).push((DIGIT_ZERO + n % 10) as u8)
    }
}

/// The fields written one after another with a separator between two.
pub open spec fn join_fields(fields: Seq<Seq<u8>>) -> Seq<u8>
    decreases fields.len(),
{
    if fields.len() == 0 {
        Seq::empty()
    } else if fields.len() == 1 {
        fields[0]
    } else {
        join_fields(fields.drop_last()) + seq![FIELD_SEPARATOR] + fields.last()
    }
}

/// The text form of a list of bytes.
pub open spec fn format_spec(values: Seq<u8>) -> Seq<u8> {
    join_fields(values.map_values(|v: u8| numeral(v as nat)))
}

pub open spec fn has_no_separator(s: Seq<u8>) -> bool {
    forall|i: int| 0 <= i < s.len() ==> #[trigger] s[i] != FIELD_SEPARATOR
}

proof fn lemma_split_nonempty(s: Seq<u8>)
    ensures
        split_fields(s).len() >= 1,
    decreases s.len(),
{
    if s.len() > 0 {
        lemma_split_nonempty(s.drop_last());
    }
}

/// Appending bytes without a separator extends the last field.
proof fn lemma_split_extend(q: Seq<u8>, t: Seq<u8>)
    requires
        has_no_separator(t),
    ensures
        split_fields(q + t) == split_fields(q).update(
            split_fields(q).len() - 1,
            split_fields(q).last() + t,
        ),
    decreases t.len(),
{
    lemma_split_nonempty(q);
    if t.len() == 0 {
        assert(q + t =~= q);
        assert(split_fields(q).last() + t =~= split_fields(q).last());
        assert(split_fields(q).update(split_fields(q).len() - 1, split_fields(q).last())
            =~= split_fields(q));
    } else {
        let t0 = t.drop_last();
        assert(has_no_separator(t0));
        lemma_split_extend(q, t0);
        assert((q + t).drop_last() =~= q + t0);
        assert((q + t).last() == t.last());
        assert((split_fields(q).last() + t0).push(t.last()) =~= split_fields(q).last() + t);
        lemma_split_nonempty(q + t0);
        assert(t[t.len() - 1] != FIELD_SEPARATOR);
        let p = split_fields(q + t0);
        assert(split_fields(q + t) == p.update(p.len() - 1, p.last().push(t.last())));
        assert(p.last() == split_fields(q).last() + t0);
        assert(split_fields(q + t) =~= split_fields(q).update(
            split_fields(q).len() - 1,
            split_fields(q).last() + t,
        ));
    }
}

/// Splitting joined fields gives them back, when none holds a separator.
proof fn lemma_split_join(fields: Seq<Seq<u8>>)
    requires
        fields.len() >= 1,
        forall|i: int| 0 <= i < fields.len() ==> has_no_separator(#[trigger] fields[i]),
    ensures
        split_fields(join_fields(fields)) == fields,
    decreases fields.len(),
{
    if fields.len() == 1 {
        lemma_split_extend(Seq::empty(), fields[0]);
        assert(Seq::<u8>::empty() + fields[0] =~= fields[0]);
        assert(split_fields(fields[0]) =~= fields);
    } else {
        let init = fields.drop_last();
        assert forall|i: int| 0 <= i < init.len() implies has_no_separator(#[trigger] init[i]) by {
            assert(init[i] == fields[i]);
        }
        lemma_split_join(init);
        let p = join_fields(init);
        let q = p + seq![FIELD_SEPARATOR];
        assert(q.drop_last() =~= p);
        assert(split_fields(q) == init.push(Seq::<u8>::empty()));
        assert(has_no_separator(fields[fields.len() - 1]));
        lemma_split_extend(q, fields.last());
        assert(Seq::<u8>::empty() + fields.last() =~= fields.last());
        assert(split_fields(q + fields.last()) =~= fields);
    }
}

proof fn lemma_decimal_push(s: Seq<u8>, d: u8)
    ensures
        decimal_value(s.push(d)) == decimal_value(s) * 10 + (d - DIGIT_ZERO) as nat,
{
    assert(s.push(d).drop_last() =~= s);
}

/// A numeral of a byte is a field that denotes it.
proof fn lemma_numeral(n: nat)
    requires
        n <= u8::MAX,
    ensures
        is_byte_numeral(numeral(n)),
        decimal_value(numeral(n)) == n,
        has_no_separator(numeral(n)),
    decreases n,
{
    if n < 10 {
        let s = seq![(DIGIT_ZERO + n) as u8];
        assert(s.drop_last() =~= Seq::<u8>::empty());
        assert(decimal_value(Seq::<u8>::empty()) == 0);
        assert(s.last() == DIGIT_ZERO + n);
        assert(decimal_value(s) == decimal_value(s.drop_last()) * 10 + (s.last() - DIGIT_ZERO) as nat);
        assert(decimal_value(s) == n);
    } else {
        lemma_numeral(n / 10);
        let p = numeral(n / 10);
        let d = (DIGIT_ZERO + n % 10) as u8;
        lemma_decimal_push(p, d);
        assert(numeral(n) == p.push(d));
        assert forall|i: int| 0 <= i < numeral(n).len() implies is_digit(#[trigger] numeral(n)[i]) by {
            if i < p.len() {
                assert(numeral(n)[i] == p[i]);
            }
        }
    }
}

/// Reading the text form of a non-empty list of bytes gives the list back.
pub proof fn lemma_parse_format(values: Seq<u8>)
    requires
        values.len() >= 1,
    ensures
        parse_spec(format_spec(values)) == Some(values),
{
    let fields = values.map_values(|v: u8| numeral(v as nat));
    assert forall|i: int| 0 <= i < fields.len() implies has_no_separator(#[trigger] fields[i])
        && is_byte_numeral(fields[i]) && decimal_value(fields[i]) == values[i] by {
        lemma_numeral(values[i] as nat);
    }
    lemma_split_join(fields);
    assert(fields.map_values(|f: Seq<u8>| decimal_value(f) as u8) =~= values);
}

/// A last field that stays invalid whatever bytes other than a separator
/// follow it: it holds a non-digit, or digits worth more than a byte.
spec fn is_doomed(t: Seq<u8>) -> bool {
    ||| exists|j: int| 0 <= j < t.len() && !is_digit(#[trigger] t[j])
    ||| (forall|j: int| 0 <= j < t.len() ==> is_digit(#[trigger] t[j])) && decimal_value(t)
        > u8::MAX
}

proof fn lemma_doomed_push(t: Seq<u8>, c: u8)
    requires
        is_doomed(t),
    ensures
        is_doomed(t.push(c)),
        !is_byte_numeral(t),
{
    let u = t.push(c);
    if exists|j: int| 0 <= j < t.len() && !is_digit(#[trigger] t[j]) {
        let j = choose|j: int| 0 <= j < t.len() && !is_digit(#[trigger] t[j]);
        assert(!is_digit(u[j]));
    } else if !is_digit(c) {
        assert(!is_digit(u[t.len() as int]));
    } else {
        lemma_decimal_push(t, c);
        assert forall|j: int| 0 <= j < u.len() implies is_digit(#[trigger] u[j]) by {
            if j < t.len() {
                assert(u[j] == t[j]);
            }
        }
    }
}

proof fn lemma_split_step(text: Seq<u8>, i: int)
    requires
        0 <= i < text.len(),
    ensures
        ({
            let p = split_fields(text.subrange(0, i));
            let c = text[i];
            &&& p.len() >= 1
            &&& split_fields(text.subrange(0, i + 1)) == if c == FIELD_SEPARATOR {
                p.push(Seq::<u8>::empty())
            } else {
                p.update(p.len() - 1, p.last().push(c))
            }
        }),
{
    lemma_split_nonempty(text.subrange(0, i));
    assert(text.subrange(0, i + 1).drop_last() =~= text.subrange(0, i));
}

/// Reads the text form of a list of bytes: `Some` with the bytes when every
/// field between commas is a decimal number from 0 to 255, else `None`.
pub fn parse_fields(text: &[u8]) -> (r: Option<Vec<u8>>)
    ensures
        match r {
            Some(v) => parse_spec(text@) == Some(v@),
            None => parse_spec(text@) is None,
        },
{
    let mut values: Vec<u8> = Vec::new();
    let mut ok = true;
    let mut cur: u32 = 0;
    let mut has_digit = false;
    let ghost mut bad: int = 0;
    let mut i: usize = 0;
    proof {
        assert(text@.subrange(0, 0) =~= Seq::<u8>::empty());
    }
    while i < text.len()
        invariant
            0 <= i <= text@.len(),
            ({
                let f = split_fields(text@.subrange(0, i as int));
                &&& f.len() >= 1
                &&& ok ==> {
                    &&& values@.len() == f.len() - 1
                    &&& forall|k: int|
                        0 <= k < f.len() - 1 ==> is_byte_numeral(#[trigger] f[k]) && values@[k]
                            == decimal_value(f[k]) as u8
                    &&& forall|j: int| 0 <= j < f.last().len() ==> is_digit(#[trigger] f.last()[j])
                    &&& cur == decimal_value(f.last())
                    &&& cur <= u8::MAX
                    &&& has_digit == (f.last().len() > 0)
                }
                &&& !ok ==> {
                    &&& 0 <= bad < f.len()
                    &&& bad < f.len() - 1 ==> !is_byte_numeral(f[bad])
                    &&& bad == f.len() - 1 ==> is_doomed(f[bad])
                }
            }),
        decreases text@.len() - i,
    {
        let c = text[i];
        let ghost f = split_fields(text@.subrange(0, i as int));
        proof {
            lemma_split_step(text@, i as int);
        }
        let ghost g = split_fields(text@.subrange(0, i + 1));
        if ok {
            if c == FIELD_SEPARATOR {
                if has_digit {
                    values.push(cur as u8);
                    cur = 0;
                    has_digit = false;
                    proof {
                        assert forall|k: int| 0 <= k < g.len() - 1 implies is_byte_numeral(
                            #[trigger] g[k],
                        ) && values@[k] == decimal_value(g[k]) as u8 by {
                            assert(g[k] == f[k]);
                        }
                        assert(g.last() =~= Seq::<u8>::empty());
                    }
                } else {
                    ok = false;
                    proof {
                        bad = f.len() - 1;
                        assert(g[bad] == f.last());
                    }
                }
            } else if DIGIT_ZERO <= c && c <= DIGIT_ZERO + 9 {
                let next = cur * 10 + (c - DIGIT_ZERO) as u32;
                proof {
                    lemma_decimal_push(f.last(), c);
                    assert forall|j: int| 0 <= j < g.last().len() implies is_digit(
                        #[trigger] g.last()[j],
                    ) by {
                        if j < f.last().len() {
                            assert(g.last()[j] == f.last()[j]);
                        }
                    }
                    assert forall|k: int| 0 <= k < g.len() - 1 implies is_byte_numeral(
                        #[trigger] g[k],
                    ) && values@[k] == decimal_value(g[k]) as u8 by {
                        assert(g[k] == f[k]);
                    }
                }
                if next > u8::MAX as u32 {
                    ok = false;
                    proof {
                        bad = g.len() - 1;
                    }
                } else {
                    cur = next;
                    has_digit = true;
                }
            } else {
                ok = false;
                proof {
                    bad = g.len() - 1;
                    assert(!is_digit(g.last()[f.last().len() as int]));
                }
            }
        } else {
            proof {
                if c == FIELD_SEPARATOR {
                    if bad == f.len() - 1 {
                        lemma_doomed_push(f[bad], c);
                    }
                    assert(g[bad] == f[bad]);
                } else if bad == f.len() - 1 {
                    lemma_doomed_push(f[bad], c);
                } else {
                    assert(g[bad] == f[bad]);
                }
            }
        }
        i = i + 1;
    }
    proof {
        assert(text@.subrange(0, text@.len() as int) =~= text@);
    }
    let ghost f = split_fields(text@);
    if !ok {
        proof {
            if bad == f.len() - 1 {
                lemma_doomed_push(f[bad], 0);
            }
            assert(!is_byte_numeral(f[bad]));
        }
        return None;
    }
    if !has_digit {
        proof {
            assert(!is_byte_numeral(f[f.len() - 1]));
        }
        return None;
    }
    values.push(cur as u8);
    proof {
        assert forall|k: int| 0 <= k < f.len() implies is_byte_numeral(#[trigger] f[k]) by {
            if k < f.len() - 1 {
            } else {
                assert(f[k] == f.last());
            }
        }
        assert(f.map_values(|t: Seq<u8>| decimal_value(t) as u8) =~= values@);
    }
    Some(values)
}

/// Appends the numeral of `v`.
fn push_numeral(out: &mut Vec<u8>, v: u8)
    ensures
        final(out)@ == old(out)@ + numeral(v as nat),
{
    let ghost n = v as nat;
    if v >= 100 {
        assert(numeral(n) == numeral(n / 10).push((DIGIT_ZERO + n % 10) as u8));
        assert(numeral(n / 10) == numeral(n / 10 / 10).push((DIGIT_ZERO + (n / 10) % 10) as u8));
        assert(numeral(n / 10 / 10) == seq![(DIGIT_ZERO + n / 10 / 10) as u8]);
        out.push(DIGIT_ZERO + v / 100);
        out.push(DIGIT_ZERO + (v / 10) % 10);
        out.push(DIGIT_ZERO + v % 10);
    } else if v >= 10 {
        assert(numeral(n) == numeral(n / 10).push((DIGIT_ZERO + n % 10) as u8));
        assert(numeral(n / 10) == seq![(DIGIT_ZERO + n / 10) as u8]);
        out.push(DIGIT_ZERO + v / 10);
        out.push(DIGIT_ZERO + v % 10);
    } else {
        out.push(DIGIT_ZERO + v);
    }
    assert(final(out)@ =~= old(out)@ + numeral(n));
}

/// Writes a list of bytes in text form: decimal numbers separated by commas.
pub fn format_fields(values: &[u8]) -> (r: Vec<u8>)
    ensures
        r@ == format_spec(values@),
{
    let mut out: Vec<u8> = Vec::new();
    let mut i: usize = 0;
    while i < values.len()
        invariant
            0 <= i <= values@.len(),
            out@ == join_fields(values@.subrange(0, i as int).map_values(|v: u8| numeral(v as nat))),
        decreases values@.len() - i,
    {
        let ghost fs = values@.subrange(0, i as int).map_values(|v: u8| numeral(v as nat));
        let ghost gs = values@.subrange(0, i + 1).map_values(|v: u8| numeral(v as nat));
        assert(gs =~= fs.push(numeral(values@[i as int] as nat)));
        assert(gs.drop_last() =~= fs);
        if i > 0 {
            out.push(FIELD_SEPARATOR);
        }
        push_numeral(&mut out, values[i]);
        i = i + 1;
        assert(out@ =~= join_fields(gs));
    }
    assert(values@.subrange(0, values@.len() as int) =~= values@);
    out
}

} // verus!
