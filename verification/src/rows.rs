//! Splitting the raw bytes of the reference file into records and fields.
//!
//! The file format is a delimited tabular file: records are separated by
//! newlines (a record may end in a carriage return, which is stripped), and
//! fields within a record are separated by commas. A trailing newline does
//! not produce an extra empty record.

use vstd::prelude::*;

verus! {

/// Record separator: line feed.
pub const NEWLINE: u8 = 10;

/// Stripped from the end of a record before field splitting: carriage return.
pub const CARRIAGE_RETURN: u8 = 13;

/// Field separator: comma.
pub const COMMA: u8 = 44;

/// Index of the first occurrence of `c` in `s`, or `s.len()` if `c` does not
/// occur.
pub open spec fn first_at(s: Seq<u8>, c: u8) -> int
    decreases s.len(),
{
    if s.len() == 0 {
        0
    } else if s[0] == c {
        0
    } else {
        1 + first_at(s.subrange(1, s.len() as int), c)
    }
}

/// The segments of `s` delimited by `c`. The empty input has no segments, and
/// a trailing delimiter does not produce a trailing empty segment.
pub open spec fn split_at(s: Seq<u8>, c: u8) -> Seq<Seq<u8>>
    decreases s.len(),
{
    if s.len() == 0 {
        Seq::<Seq<u8>>::empty()
    } else {
        let i = first_at(s, c);
        if 0 <= i < s.len() {
            seq![s.subrange(0, i)] + split_at(s.subrange(i + 1, s.len() as int), c)
        } else {
            seq![s]
        }
    }
}

/// Any position that has `c` at it (or is the length, when `c` is absent) and
/// nothing but non-`c` bytes before it is exactly `first_at`.
pub proof fn lemma_first_at_unique(s: Seq<u8>, c: u8, i: int)
    requires
        0 <= i <= s.len(),
        forall|k: int| 0 <= k < i ==> s[k] != c,
        i == s.len() || s[i] == c,
    ensures
        first_at(s, c) == i,
    decreases i,
{
    if s.len() == 0 {
    } else if i == 0 {
    } else {
        assert(s[0] != c);
        let t = s.subrange(1, s.len() as int);
        assert forall|k: int| 0 <= k < i - 1 implies t[k] != c by {
            assert(t[k] == s[k + 1]);
        }
        assert(i - 1 == t.len() || t[i - 1] == c);
        lemma_first_at_unique(t, c, i - 1);
    }
}

/// Copies `s[from..to]` into a fresh vector.
pub fn subrange_vec(s: &[u8], from: usize, to: usize) -> (r: Vec<u8>)
    requires
        from <= to <= s@.len(),
    ensures
        r@ == s@.subrange(from as int, to as int),
{
    let mut r: Vec<u8> = Vec::new();
    let mut i: usize = from;
    while i < to
        invariant
            from <= i <= to <= s@.len(),
            r@ == s@.subrange(from as int, i as int),
        decreases to - i,
    {
        r.push(s[i]);
        i = i + 1;
        assert(r@ =~= s@.subrange(from as int, i as int));
    }
    r
}

/// Splits `s` on the delimiter `sep`, as `split_at` describes.
pub fn split_bytes(s: &[u8], sep: u8) -> (parts: Vec<Vec<u8>>)
    ensures
        parts.deep_view() == split_at(s@, sep),
{
    let mut parts: Vec<Vec<u8>> = Vec::new();
    let mut start: usize = 0;
    assert(s@.skip(0) =~= s@);
    assert(parts.deep_view() + split_at(s@, sep) =~= split_at(s@, sep));
    while start < s.len()
        invariant
            start <= s@.len(),
            split_at(s@, sep) == parts.deep_view() + split_at(s@.skip(start as int), sep),
        decreases s@.len() - start,
    {
        let ghost st = start as int;
        let ghost prev_parts = parts.deep_view();
        let ghost rest = s@.skip(st);
        let mut j: usize = start;
        while j < s.len() && s[j] != sep
            invariant
                start <= j <= s@.len(),
                forall|k: int| start <= k < j ==> s@[k] != sep,
            decreases s@.len() - j,
        {
            j = j + 1;
        }
        let piece = subrange_vec(s, start, j);
        parts.push(piece);
        proof {
            assert forall|k: int| 0 <= k < j - st implies rest[k] != sep by {
                assert(rest[k] == s@[st + k]);
            }
            assert(j - st == rest.len() || rest[j - st] == sep);
            lemma_first_at_unique(rest, sep, j - st);
            assert(rest.subrange(0, j - st) =~= s@.subrange(st, j as int));
            assert(parts.deep_view() =~~= prev_parts.push(s@.subrange(st, j as int)));
        }
        if j < s.len() {
            start = j + 1;
            proof {
                assert(first_at(rest, sep) == j - st && j - st < rest.len());
                assert(rest.subrange(j - st + 1, rest.len() as int) =~= s@.skip(start as int));
                assert(split_at(rest, sep) == seq![rest.subrange(0, j - st)] + split_at(
                    s@.skip(start as int),
                    sep,
                ));
                assert(split_at(s@, sep) =~= parts.deep_view() + split_at(
                    s@.skip(start as int),
                    sep,
                ));
            }
        } else {
            start = s.len();
            proof {
                assert(first_at(rest, sep) == rest.len());
                assert(split_at(rest, sep) == seq![rest]);
                assert(rest =~= s@.subrange(st, j as int));
                assert(s@.skip(start as int) =~= Seq::<u8>::empty());
                assert(split_at(s@, sep) =~= parts.deep_view() + split_at(
                    s@.skip(start as int),
                    sep,
                ));
            }
        }
    }
    proof {
        assert(s@.skip(start as int) =~= Seq::<u8>::empty());
        assert(split_at(s@, sep) =~= parts.deep_view());
    }
    parts
}

/// A record with a trailing carriage return, as left by splitting input with
/// carriage-return–line-feed record separators on the line feed alone, has
/// that carriage return removed; any other record is unchanged.
pub open spec fn strip_cr(line: Seq<u8>) -> Seq<u8> {
    if line.len() > 0 && line[line.len() - 1] == CARRIAGE_RETURN {
        line.drop_last()
    } else {
        line
    }
}

/// Removes a single trailing carriage return, as `strip_cr` describes.
pub fn strip_cr_vec(line: &mut Vec<u8>)
    ensures
        final(line)@ == strip_cr(old(line)@),
{
    let n: usize = line.len();
    if n > 0 && line[n - 1] == CARRIAGE_RETURN {
        line.pop();
        assert(line@ =~= old(line)@.drop_last());
    }
}

/// The fields of one record: the record, less a trailing carriage return,
/// split on commas.
pub open spec fn fields_of(line: Seq<u8>) -> Seq<Seq<u8>> {
    split_at(strip_cr(line), COMMA)
}

/// All records of the file, each as its sequence of fields. The first record
/// is the header; the records after it carry data.
pub open spec fn rows_of(data: Seq<u8>) -> Seq<Seq<Seq<u8>>> {
    split_at(data, NEWLINE).map_values(|line: Seq<u8>| fields_of(line))
}

} // verus!
