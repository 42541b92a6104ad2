use vstd::prelude::*;

use crate::text::{string_from_chars, trim_chars, trimmed};
use crate::word::chars_of;

verus! {

/// The pieces of `s` between occurrences of `sep`; `n` separators give
/// `n + 1` pieces.
pub open spec fn split_on(s: Seq<char>, sep: char) -> Seq<Seq<char>>
    decreases s.len(),
{
    if s.len() == 0 {
        seq![Seq::<char>::empty()]
    } else {
        let init = split_on(s.drop_last(), sep);
        if s.last() == sep {
            init.push(Seq::<char>::empty())
        } else {
            init.update(init.len() - 1, init.last().push(s.last()))
        }
    }
}

proof fn lemma_split_nonempty(s: Seq<char>, sep: char)
    ensures
        split_on(s, sep).len() >= 1,
    decreases s.len(),
{
    if s.len() > 0 {
        lemma_split_nonempty(s.drop_last(), sep);
    }
}

pub open spec fn is_digit(c: char) -> bool {
    '0' <= c && c <= '9'
}

pub open spec fn digits_value(s: Seq<char>) -> nat
    decreases s.len(),
{
    if s.len() == 0 {
        0
    } else {
        digits_value(s.drop_last()) * 10 + (s.last() as nat - '0' as nat) as nat
    }
}

/// `s` without a leading `+`.
pub open spec fn unsigned_part(s: Seq<char>) -> Seq<char> {
    if s.len() > 0 && s[0] == '+' {
        s.drop_first()
    } else {
        s
    }
}

pub open spec fn all_digits(d: Seq<char>) -> bool {
    forall|i: int| 0 <= i < d.len() ==> is_digit(#[trigger] d[i])
}

/// The number a decimal text stands for, as `str::parse::<usize>` reads it:
/// an optional `+`, then one or more digits, and a value that fits.
pub open spec fn parsed_usize(s: Seq<char>) -> Option<usize> {
    let d = unsigned_part(s);
    if d.len() > 0 && all_digits(d) && digits_value(d) <= usize::MAX {
        Some(digits_value(d) as usize)
    } else {
        None
    }
}

/// The values of the pieces that are numbers, in order.
pub open spec fn parsed_values(ps: Seq<Seq<char>>) -> Seq<usize>
    decreases ps.len(),
{
    if ps.len() == 0 {
        Seq::empty()
    } else {
        match parsed_usize(ps.last()) {
            Some(v) => parsed_values(ps.drop_last()).push(v),
            None => parsed_values(ps.drop_last()),
        }
    }
}

/// The trimmed lines of a word list that are not empty.
pub open spec fn kept_words(lines: Seq<Seq<char>>) -> Seq<Seq<char>>
    decreases lines.len(),
{
    if lines.len() == 0 {
        Seq::empty()
    } else {
        let w = trimmed(lines.last());
        if w.len() > 0 {
            kept_words(lines.drop_last()).push(w)
        } else {
            kept_words(lines.drop_last())
        }
    }
}

pub open spec fn views(v: Seq<Vec<char>>) -> Seq<Seq<char>> {
    v.map_values(|x: Vec<char>| x@)
}

/// The pieces of `c` between occurrences of `sep`.
pub fn split_chars(c: &Vec<char>, sep: char) -> (r: Vec<Vec<char>>)
    ensures
        views(r@) == split_on(c@, sep),
{
    let mut parts: Vec<Vec<char>> = Vec::new();
    let mut cur: Vec<char> = Vec::new();
    let mut i: usize = 0;
    proof {
        assert(c@.subrange(0, 0) =~= Seq::<char>::empty());
        assert(views(parts@).push(cur@) =~= split_on(c@.subrange(0, 0), sep));
    }
    while i < c.len()
        invariant
            i <= c@.len(),
            views(parts@).push(cur@) == split_on(c@.subrange(0, i as int), sep),
        decreases c@.len() - i,
    {
        let ghost pre = c@.subrange(0, i as int);
        let ghost next = c@.subrange(0, i + 1);
        proof {
            assert(next.drop_last() =~= pre);
            lemma_split_nonempty(pre, sep);
        }
        let ch = c[i];
        if ch == sep {
            let mut done: Vec<char> = Vec::new();
            std::mem::swap(&mut done, &mut cur);
            parts.push(done);
            proof {
                assert(views(parts@).push(cur@) =~= split_on(pre, sep).push(Seq::<char>::empty()));
            }
        } else {
            let ghost before = cur@;
            cur.push(ch);
            proof {
                let init = split_on(pre, sep);
                assert(init.last() == before);
                assert(views(parts@).push(cur@) =~= init.update(init.len() - 1, init.last().push(ch)));
            }
        }
        i += 1;
    }
    proof {
        assert(c@.subrange(0, c@.len() as int) =~= c@);
    }
    parts.push(cur);
    proof {
        assert(views(parts@) =~= split_on(c@, sep));
    }
    parts
}

proof fn lemma_digits_prefix(d: Seq<char>, i: int)
    requires
        0 <= i <= d.len(),
    ensures
        digits_value(d.subrange(0, i)) <= digits_value(d),
    decreases d.len(),
{
    if i < d.len() {
        assert(d.drop_last() =~= d.subrange(0, d.len() - 1));
        lemma_digits_prefix(d.drop_last(), i);
        assert(d.drop_last().subrange(0, i) =~= d.subrange(0, i));
    } else {
        assert(d.subrange(0, i) =~= d);
    }
}

/// The number `c` stands for, as `str::parse::<usize>` reads it.
pub fn parse_usize(c: &Vec<char>) -> (r: Option<usize>)
    ensures
        r == parsed_usize(c@),
{
    let start: usize = if c.len() > 0 && c[0] == '+' {
        1
    } else {
        0
    };
    let ghost d = unsigned_part(c@);
    proof {
        assert(d =~= c@.subrange(start as int, c@.len() as int));
    }
    if c.len() == start {
        return None;
    }
    let mut v: usize = 0;
    let mut i: usize = start;
    while i < c.len()
        invariant
            start <= i <= c@.len(),
            d == unsigned_part(c@),
            d == c@.subrange(start as int, c@.len() as int),
            v == digits_value(d.subrange(0, i - start)),
            forall|k: int| 0 <= k < i - start ==> is_digit(#[trigger] d[k]),
        decreases c@.len() - i,
    {
        let ch = c[i];
        if !('0' <= ch && ch <= '9') {
            proof {
                assert(!is_digit(d[i - start]));
                assert(!all_digits(d));
                assert(parsed_usize(c@) is None);
            }
            return None;
        }
        let digit = (ch as u32 - '0' as u32) as usize;
        proof {
            let p = d.subrange(0, i - start + 1);
            assert(p.drop_last() =~= d.subrange(0, i - start));
            assert(digits_value(p) == v * 10 + digit);
            lemma_digits_prefix(d, i - start + 1);
        }
        if v > (usize::MAX - digit) / 10 {
            proof {
                assert(v * 10 + digit > usize::MAX) by (nonlinear_arith)
                    requires
                        v > (usize::MAX - digit) / 10,
                        digit <= 9,
                ;
                assert(digits_value(d) > usize::MAX);
                assert(parsed_usize(c@) is None);
            }
            return None;
        }
        proof {
            assert(v * 10 + digit <= usize::MAX) by (nonlinear_arith)
                requires
                    v <= (usize::MAX - digit) / 10,
                    digit <= 9,
            ;
        }
        v = v * 10 + digit;
        i += 1;
    }
    proof {
        assert(d.subrange(0, d.len() as int) =~= d);
    }
    Some(v)
}

/// Canvas dimensions written `<width>x<height>`: the first two pieces
/// between `x`s that are numbers.
pub fn parse_dimension(s: &str) -> (r: Result<(usize, usize), String>)
    ensures
        match r {
            Ok((w, h)) => {
                let vals = parsed_values(split_on(s@, 'x'));
                vals.len() >= 2 && w == vals[0] && h == vals[1]
            },
            Err(_) => parsed_values(split_on(s@, 'x')).len() < 2,
        },
{
    let c = chars_of(s);
    let parts = split_chars(&c, 'x');
    let ghost ps = views(parts@);
    let mut vals: Vec<usize> = Vec::new();
    let mut i: usize = 0;
    while i < parts.len()
        invariant
            i <= parts@.len(),
            ps == views(parts@),
            vals@ == parsed_values(ps.subrange(0, i as int)),
        decreases parts@.len() - i,
    {
        proof {
            assert(ps.subrange(0, i + 1).drop_last() =~= ps.subrange(0, i as int));
            assert(ps.subrange(0, i + 1).last() == parts@[i as int]@);
        }
        match parse_usize(&parts[i]) {
            Some(v) => {
                vals.push(v);
            },
            None => {},
        }
        i += 1;
    }
    proof {
        assert(ps.subrange(0, ps.len() as int) =~= ps);
    }
    if vals.len() >= 2 {
        Ok((vals[0], vals[1]))
    } else {
        Err("could not parse dimensions".to_owned())
    }
}

/// The words of a word list: one per line, trimmed, blank lines left out.
pub fn parse_word_list(text: &str) -> (r: Vec<String>)
    ensures
        r@.map_values(|w: String| w@) == kept_words(split_on(text@, '\n')),
{
    let c = chars_of(text);
    let lines = split_chars(&c, '\n');
    let ghost ls = views(lines@);
    let mut words: Vec<String> = Vec::new();
    let mut i: usize = 0;
    while i < lines.len()
        invariant
            i <= lines@.len(),
            ls == views(lines@),
            words@.map_values(|w: String| w@) == kept_words(ls.subrange(0, i as int)),
        decreases lines@.len() - i,
    {
        proof {
            assert(ls.subrange(0, i + 1).drop_last() =~= ls.subrange(0, i as int));
            assert(ls.subrange(0, i + 1).last() == lines@[i as int]@);
        }
        let t = trim_chars(&lines[i]);
        if t.len() > 0 {
            let ghost before = words@;
            words.push(string_from_chars(&t));
            proof {
                assert(words@.map_values(|w: String| w@) =~= before.map_values(|w: String| w@).push(
                    t@,
                ));
            }
        }
        i += 1;
    }
    proof {
        assert(ls.subrange(0, ls.len() as int) =~= ls);
    }
    words
}

} // verus!
