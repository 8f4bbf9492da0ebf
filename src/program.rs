//! Program text: decimal words separated by commas, each possibly surrounded
//! by ASCII whitespace.
use vstd::prelude::*;

use crate::semantics::is_word;
use crate::Data;

verus! {

/// The first token of the program text that is not a word.
#[derive(Clone, Copy, Debug, PartialEq, Eq, Structural)]
pub struct FormatError {
    /// Index of the offending token, counting from 0.
    pub token_index: usize,
}

pub open spec fn is_space(b: u8) -> bool {
    b == 32 || b == 9 || b == 10 || b == 13
}

pub open spec fn is_digit(b: u8) -> bool {
    48 <= b <= 57
}

/// The text cut at each comma.
pub open spec fn split_commas(s: Seq<u8>) -> Seq<Seq<u8>>
    decreases s.len(),
{
    if s.len() == 0 {
        seq![Seq::empty()]
    } else {
        let r = split_commas(s.drop_last());
        if s.last() == 44 {
            r.push(Seq::empty())
        } else {
            r.update(r.len() - 1, r.last().push(s.last()))
        }
    }
}

/// `t` without its leading whitespace.
pub open spec fn trim_start(t: Seq<u8>) -> Seq<u8>
    decreases t.len(),
{
    if t.len() > 0 && is_space(t[0]) {
        trim_start(t.drop_first())
    } else {
        t
    }
}

/// `t` without its trailing whitespace.
pub open spec fn trim_end(t: Seq<u8>) -> Seq<u8>
    decreases t.len(),
{
    if t.len() > 0 && is_space(t.last()) {
        trim_end(t.drop_last())
    } else {
        t
    }
}

/// The number that a string of decimal digits spells.
pub open spec fn digits_value(d: Seq<u8>) -> int
    decreases d.len(),
{
    if d.len() == 0 {
        0
    } else {
        digits_value(d.drop_last()) * 10 + (d.last() - 48)
    }
}

/// Whether `d` holds decimal digits only.
pub open spec fn all_digits(d: Seq<u8>) -> bool {
    forall|i: int| 0 <= i < d.len() ==> is_digit(#[trigger] d[i])
}

/// The word a token spells: an optional sign and at least one decimal digit,
/// whitespace around it ignored; `None` when it spells none or the number does
/// not fit in a word.
pub open spec fn token_value(t: Seq<u8>) -> Option<Data> {
    let u = trim_end(trim_start(t));
    let signed = u.len() > 0 && (u[0] == 45 || u[0] == 43);
    let d = if signed {
        u.drop_first()
    } else {
        u
    };
    let v = if signed && u[0] == 45 {
        -digits_value(d)
    } else {
        digits_value(d)
    };
    if d.len() > 0 && all_digits(d) && is_word(v) {
        Some(v as Data)
    } else {
        None
    }
}

proof fn lemma_digits_value_grows(d: Seq<u8>, k: int)
    requires
        0 <= k <= d.len(),
        forall|i: int| 0 <= i < d.len() ==> is_digit(#[trigger] d[i]),
    ensures
        digits_value(d.subrange(0, k)) <= digits_value(d),
    decreases d.len(),
{
    if k == d.len() {
        assert(d.subrange(0, k) =~= d);
    } else {
        let e = d.drop_last();
        assert(e.subrange(0, k) =~= d.subrange(0, k));
        assert(forall|i: int| 0 <= i < e.len() ==> e[i] == d[i]);
        lemma_digits_value_grows(e, k);
        lemma_digits_value_nonneg(e);
    }
}

proof fn lemma_digits_value_nonneg(d: Seq<u8>)
    requires
        forall|i: int| 0 <= i < d.len() ==> is_digit(#[trigger] d[i]),
    ensures
        digits_value(d) >= 0,
    decreases d.len(),
{
    if d.len() > 0 {
        let e = d.drop_last();
        assert(forall|i: int| 0 <= i < e.len() ==> e[i] == d[i]);
        lemma_digits_value_nonneg(e);
    }
}

/// Reads the word spelled by the token `text[start..end]`.
pub fn parse_token(text: &[u8], start: usize, end: usize) -> (r: Option<Data>)
    requires
        start <= end <= text@.len(),
    ensures
        r == token_value(text@.subrange(start as int, end as int)),
{
    let ghost t = text@.subrange(start as int, end as int);
    let mut a = start;
    while a < end && (text[a] == 32 || text[a] == 9 || text[a] == 10 || text[a] == 13)
        invariant
            start <= a <= end <= text@.len(),
            trim_start(t) == trim_start(text@.subrange(a as int, end as int)),
        decreases end - a,
    {
        assert(text@.subrange(a as int, end as int).drop_first() =~= text@.subrange(
            a + 1,
            end as int,
        ));
        a = a + 1;
    }
    assert(trim_start(t) == text@.subrange(a as int, end as int));
    let mut b = end;
    while b > a && (text[b - 1] == 32 || text[b - 1] == 9 || text[b - 1] == 10 || text[b - 1] == 13)
        invariant
            start <= a <= b <= end <= text@.len(),
            trim_end(trim_start(t)) == trim_end(text@.subrange(a as int, b as int)),
        decreases b - a,
    {
        assert(text@.subrange(a as int, b as int).drop_last() =~= text@.subrange(
            a as int,
            b - 1,
        ));
        b = b - 1;
    }
    let ghost u = text@.subrange(a as int, b as int);
    assert(trim_end(trim_start(t)) == u);
    let signed = a < b && (text[a] == 45 || text[a] == 43);
    let negative = signed && text[a] == 45;
    let c = if signed {
        a + 1
    } else {
        a
    };
    assert(u.len() > 0 ==> u[0] == text@[a as int]);
    assert(signed == (u.len() > 0 && (u[0] == 45 || u[0] == 43)));
    assert(negative == (signed && u[0] == 45));
    let ghost d = text@.subrange(c as int, b as int);
    assert(d =~= if signed {
        u.drop_first()
    } else {
        u
    });
    if c == b {
        return None;
    }
    let mut acc: i128 = 0;
    let mut k = c;
    while k < b
        invariant
            c <= k <= b <= text@.len(),
            d == text@.subrange(c as int, b as int),
            t == text@.subrange(start as int, end as int),
            trim_end(trim_start(t)) == u,
            d == if signed {
                u.drop_first()
            } else {
                u
            },
            signed == (u.len() > 0 && (u[0] == 45 || u[0] == 43)),
            negative == (signed && u[0] == 45),
            0 <= acc <= 0x8000_0000_0000_0000,
            acc == digits_value(text@.subrange(c as int, k as int)),
            all_digits(text@.subrange(c as int, k as int)),
        decreases b - k,
    {
        let ghost before = text@.subrange(c as int, k as int);
        let ghost after = text@.subrange(c as int, k + 1);
        assert(after.drop_last() =~= before);
        if text[k] < 48 || text[k] > 57 {
            assert(d[k - c] == text@[k as int]);
            assert(!is_digit(d[k - c]));
            assert(!all_digits(d));
            return None;
        }
        acc = acc * 10 + (text[k] - 48) as i128;
        assert(all_digits(after)) by {
            assert forall|i: int| 0 <= i < after.len() implies is_digit(#[trigger] after[i]) by {
                if i < before.len() {
                    assert(after[i] == before[i]);
                }
            }
        }
        if acc > 0x8000_0000_0000_0000 {
            proof {
                if all_digits(d) {
                    assert(d.subrange(0, k + 1 - c) =~= after);
                    lemma_digits_value_grows(d, k + 1 - c);
                }
            }
            return None;
        }
        k = k + 1;
    }
    assert(text@.subrange(c as int, k as int) =~= d);
    if negative {
        Some((-acc) as Data)
    } else if acc > 0x7fff_ffff_ffff_ffff {
        None
    } else {
        Some(acc as Data)
    }
}

/// Reads a program: the words spelled by the comma-separated tokens of `text`.
/// It fails with the index of the first token that spells no word.
pub fn parse_program(text: &[u8]) -> (r: Result<Vec<Data>, FormatError>)
    ensures
        match r {
            Ok(words) => words@.len() == split_commas(text@).len() && forall|k: int|
                0 <= k < words@.len() ==> token_value(#[trigger] split_commas(text@)[k]) == Some(
                    words@[k],
                ),
            Err(e) => e.token_index < split_commas(text@).len() && token_value(
                split_commas(text@)[e.token_index as int],
            ) is None && forall|k: int|
                0 <= k < e.token_index ==> token_value(#[trigger] split_commas(text@)[k]) is Some,
        },
{
    let mut words: Vec<Data> = Vec::new();
    let mut first_bad: Option<usize> = None;
    let mut start: usize = 0;
    let mut i: usize = 0;
    let ghost mut done: Seq<Seq<u8>> = Seq::empty();
    assert(text@.subrange(0, 0) =~= Seq::<u8>::empty());
    while i < text.len()
        invariant
            start <= i <= text@.len(),
            split_commas(text@.subrange(0, i as int)) == done.push(
                text@.subrange(start as int, i as int),
            ),
            done.len() <= i,
            first_bad is None ==> words@.len() == done.len() && forall|k: int|
                0 <= k < done.len() ==> token_value(#[trigger] done[k]) == Some(words@[k]),
            first_bad matches Some(j) ==> j < done.len() && token_value(done[j as int]) is None
                && forall|k: int| 0 <= k < j ==> token_value(#[trigger] done[k]) is Some,
        decreases text@.len() - i,
    {
        let ghost prefix = text@.subrange(0, i + 1);
        assert(prefix.drop_last() =~= text@.subrange(0, i as int));
        if text[i] == 44 {
            let token = parse_token(text, start, i);
            if first_bad.is_none() {
                match token {
                    Some(v) => words.push(v),
                    None => first_bad = Some(words.len()),
                }
            }
            proof {
                done = done.push(text@.subrange(start as int, i as int));
            }
            start = i + 1;
            assert(text@.subrange(start as int, i + 1) =~= Seq::<u8>::empty());
        } else {
            assert(text@.subrange(start as int, i + 1) =~= text@.subrange(
                start as int,
                i as int,
            ).push(text[i as int]));
        }
        i = i + 1;
    }
    assert(text@.subrange(0, i as int) =~= text@);
    let ghost all = split_commas(text@);
    let last = parse_token(text, start, i);
    match first_bad {
        Some(j) => {
            assert(forall|k: int| 0 <= k < done.len() ==> all[k] == done[k]);
            Err(FormatError { token_index: j })
        },
        None => match last {
            Some(v) => {
                words.push(v);
                assert(forall|k: int| 0 <= k < done.len() ==> all[k] == done[k]);
                Ok(words)
            },
            None => {
                assert(forall|k: int| 0 <= k < done.len() ==> all[k] == done[k]);
                Err(FormatError { token_index: words.len() })
            },
        },
    }
}

} // verus!
