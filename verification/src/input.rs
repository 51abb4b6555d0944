//! The input format: one observation per line. Blank lines are skipped, and
//! a line's observation is its first whitespace-delimited field, so inputs
//! with further columns still read.
use vstd::prelude::*;
use crate::error::AdError;

verus! {

/// Unicode `White_Space`, the whitespace of Rust's `char::is_whitespace`,
/// `str::trim` and `str::split_whitespace`.
pub open spec fn is_white_space(c: char) -> bool {
    let v = c as u32;
    ||| 0x9 <= v <= 0xd
    ||| v == 0x20
    ||| v == 0x85
    ||| v == 0xa0
    ||| v == 0x1680
    ||| 0x2000 <= v <= 0x200a
    ||| v == 0x2028
    ||| v == 0x2029
    ||| v == 0x202f
    ||| v == 0x205f
    ||| v == 0x3000
}

/// Whether `c` is Unicode whitespace.
pub fn white_space(c: char) -> (w: bool)
    ensures
        w == is_white_space(c),
{
    let v = c as u32;
    (0x9 <= v && v <= 0xd) || v == 0x20 || v == 0x85 || v == 0xa0 || v == 0x1680 || (0x2000 <= v
        && v <= 0x200a) || v == 0x2028 || v == 0x2029 || v == 0x202f || v == 0x205f || v == 0x3000
}

/// Law: among ASCII characters exactly tab, line feed, vertical tab, form
/// feed, carriage return and space are whitespace; in particular no letter,
/// digit, sign, point or exponent marker ends a field.
pub proof fn lemma_ascii_white_space(c: char)
    ensures
        (c as u32) < 0x80 ==> (is_white_space(c) <==> (c == '\t' || c == '\n' || c == '\u{b}'
            || c == '\u{c}' || c == '\r' || c == ' ')),
        ('a' <= c <= 'z' || 'A' <= c <= 'Z' || '0' <= c <= '9' || c == '.' || c == '+' || c
            == '-' || c == '_') ==> !is_white_space(c),
        is_white_space(c) && (c as u32) >= 0x80 ==> 0x85 <= (c as u32) <= 0x3000,
{
}

/// The number of line breaks in `s`.
pub open spec fn count_newlines(s: Seq<char>) -> nat
    decreases s.len(),
{
    if s.len() == 0 {
        0
    } else {
        count_newlines(s.drop_last()) + if s.last() == '\n' {
            1nat
        } else {
            0nat
        }
    }
}

/// The (1-based) number of the line that holds position `p` of `text`.
pub open spec fn line_number(text: Seq<char>, p: int) -> int {
    1 + count_newlines(text.take(p)) as int
}

/// No line break in `text[a..b]`.
pub open spec fn newline_free(text: Seq<char>, a: int, b: int) -> bool {
    forall|q: int| a <= q < b ==> #[trigger] text[q] != '\n'
}

/// The observation field of one line: where it is in the text, and the
/// number of its line.
#[derive(Clone, Copy, Debug, PartialEq, Eq, Structural)]
pub struct ValueField {
    /// Number of the line, counted from 1.
    pub line: usize,
    /// Position of the field's first character.
    pub start: usize,
    /// Position just past the field's last character.
    pub end: usize,
}

/// `f` is the first whitespace-delimited field of its line: a non-empty run
/// of non-whitespace, preceded on its line only by whitespace and ended by
/// whitespace or by the end of the text.
pub open spec fn is_first_field(text: Seq<char>, f: ValueField) -> bool {
    &&& f.start < f.end <= text.len()
    &&& forall|q: int| f.start <= q < f.end ==> !is_white_space(#[trigger] text[q])
    &&& f.end == text.len() || is_white_space(text[f.end as int])
    &&& forall|q: int|
        0 <= q < f.start && newline_free(text, q, f.start as int) ==> is_white_space(
            #[trigger] text[q],
        )
    &&& f.line == line_number(text, f.start as int)
}

/// `fields` are the first fields of the non-blank lines of `text`, one per
/// such line, in line order.
pub open spec fn are_value_fields(text: Seq<char>, fields: Seq<ValueField>) -> bool {
    &&& forall|k: int| 0 <= k < fields.len() ==> is_first_field(text, #[trigger] fields[k])
    &&& forall|k1: int, k2: int|
        0 <= k1 < k2 < fields.len() ==> (#[trigger] fields[k1]).line < (#[trigger] fields[k2]).line
    &&& forall|p: int|
        0 <= p < text.len() && !is_white_space(#[trigger] text[p]) ==> exists|k: int|
            0 <= k < fields.len() && fields[k].line == line_number(text, p)
}

/// The text holds nothing but whitespace.
pub open spec fn is_blank(text: Seq<char>) -> bool {
    forall|p: int| 0 <= p < text.len() ==> is_white_space(#[trigger] text[p])
}

proof fn lemma_newlines_step(text: Seq<char>, p: int)
    requires
        0 <= p < text.len(),
    ensures
        count_newlines(text.take(p + 1)) == count_newlines(text.take(p)) + if text[p] == '\n' {
            1nat
        } else {
            0nat
        },
{
    assert(text.take(p + 1).drop_last() =~= text.take(p));
}

/// A text has no more line breaks than characters.
proof fn lemma_newlines_bounded(s: Seq<char>)
    ensures
        count_newlines(s) <= s.len(),
    decreases s.len(),
{
    if s.len() > 0 {
        lemma_newlines_bounded(s.drop_last());
    }
}

/// Within a line, the line number does not change.
proof fn lemma_same_line(text: Seq<char>, a: int, b: int)
    requires
        0 <= a <= b <= text.len(),
        newline_free(text, a, b),
    ensures
        count_newlines(text.take(a)) == count_newlines(text.take(b)),
    decreases b - a,
{
    if a < b {
        lemma_same_line(text, a, b - 1);
        lemma_newlines_step(text, b - 1);
    }
}

/// Finds the first field of every non-blank line of `text`; refuses a text
/// without any observation.
pub fn value_fields(text: &Vec<char>) -> (r: Result<Vec<ValueField>, AdError>)
    requires
        text.len() < usize::MAX,
    ensures
        match r {
            Ok(fields) => are_value_fields(text@, fields@) && fields@.len() > 0,
            Err(e) => e == AdError::NoObservations && is_blank(text@),
        },
{
    let n = text.len();
    let mut fields: Vec<ValueField> = Vec::new();
    let mut line: usize = 1;
    let mut ls: usize = 0;
    proof {
        assert(text@.take(0) =~= Seq::<char>::empty());
    }
    while ls < n
        invariant
            n == text.len() < usize::MAX,
            ls <= n,
            line == line_number(text@, ls as int),
            0 < ls < n ==> text@[ls - 1] == '\n',
            forall|k: int| 0 <= k < fields@.len() ==> is_first_field(text@, #[trigger] fields@[k]),
            forall|k1: int, k2: int|
                0 <= k1 < k2 < fields@.len() ==> (#[trigger] fields@[k1]).line < (
                #[trigger] fields@[k2]).line,
            ls < n ==> forall|k: int| 0 <= k < fields@.len() ==> (#[trigger] fields@[k]).line < line,
            forall|p: int|
                0 <= p < ls && !is_white_space(#[trigger] text@[p]) ==> exists|k: int|
                    0 <= k < fields@.len() && fields@[k].line == line_number(text@, p),
        decreases n - ls,
    {
        // Skip the whitespace that opens the line.
        let mut p = ls;
        while p < n && text[p] != '\n' && white_space(text[p])
            invariant
                n == text.len(),
                ls <= p <= n,
                forall|q: int| ls <= q < p ==> is_white_space(#[trigger] text@[q]) && text@[q]
                    != '\n',
            decreases n - p,
        {
            p += 1;
        }
        let ghost fields_before = fields@;
        if p < n && text[p] != '\n' {
            // The field runs to the next whitespace.
            let mut q = p + 1;
            while q < n && !white_space(text[q])
                invariant
                    n == text.len(),
                    p < q <= n,
                    !is_white_space(text@[p as int]),
                    forall|t: int| p <= t < q ==> !is_white_space(#[trigger] text@[t]),
                decreases n - q,
            {
                q += 1;
            }
            proof {
                assert forall|t: int| ls <= t < q implies #[trigger] text@[t] != '\n' by {
                    if t >= p {
                        assert(!is_white_space(text@[t]));
                    }
                }
                lemma_same_line(text@, ls as int, p as int);
                assert forall|t: int|
                    0 <= t < p && newline_free(text@, t, p as int) implies is_white_space(
                    #[trigger] text@[t],
                ) by {
                    if t < ls {
                        assert(text@[ls - 1] == '\n');
                    }
                }
            }
            fields.push(ValueField { line, start: p, end: q });
            proof {
                assert forall|k1: int, k2: int|
                    0 <= k1 < k2 < fields@.len() implies (#[trigger] fields@[k1]).line < (
                    #[trigger] fields@[k2]).line by {
                    if k2 == fields@.len() - 1 {
                        assert(fields_before[k1].line < line);
                    }
                }
            }
        }
        // Move past the line break that ends the line.
        let mut e = p;
        while e < n && text[e] != '\n'
            invariant
                n == text.len(),
                p <= e <= n,
                forall|t: int| p <= t < e ==> #[trigger] text@[t] != '\n',
            decreases n - e,
        {
            e += 1;
        }
        proof {
            assert(newline_free(text@, ls as int, e as int)) by {
                assert forall|t: int| ls <= t < e implies #[trigger] text@[t] != '\n' by {
                    if t < p {
                        assert(is_white_space(text@[t]) && text@[t] != '\n');
                    }
                }
            }
            lemma_same_line(text@, ls as int, e as int);
            // Every non-blank position of this line has its field.
            assert forall|t: int|
                0 <= t < e && !is_white_space(#[trigger] text@[t]) implies exists|k: int|
                0 <= k < fields@.len() && fields@[k].line == line_number(text@, t) by {
                if t >= ls {
                    lemma_same_line(text@, ls as int, t);
                    assert(t >= p);
                    let k = (fields@.len() - 1) as int;
                    assert(fields@[k].line == line);
                } else {
                    let k = choose|k: int|
                        0 <= k < fields_before.len() && fields_before[k].line == line_number(
                            text@,
                            t,
                        );
                    assert(fields@[k] == fields_before[k]);
                }
            }
        }
        if e < n {
            proof {
                lemma_newlines_step(text@, e as int);
                lemma_newlines_bounded(text@.take(e as int));
            }
            line = line + 1;
            ls = e + 1;
        } else {
            ls = n;
        }
    }
    if fields.len() == 0 {
        return Err(AdError::NoObservations);
    }
    Ok(fields)
}

} // verus!
