//! Layout of a measured spectrum table (CSV): which lines carry data, and
//! what each column of the header means. Column 0 is the wavelength, every
//! other column either a port pair's magnitude or phase or ignored. The
//! numbers in the data rows are the caller's to parse.

use vstd::prelude::*;
use crate::photonic::spectrum::{pair_column, parse_pair_column, pieces, split_on};
use crate::text::{chars_of, lowercase_chars, lowercased, string_of, trim_chars, trim_seq};

verus! {

/// A line that carries table content: not blank, not a `#` or `*` comment.
pub open spec fn is_data_line(l: Seq<char>) -> bool {
    l.len() > 0 && l[0] != '#' && l[0] != '*'
}

/// The trimmed content lines among `lines[0 .. count]`, in order.
pub open spec fn data_lines_of(lines: Seq<Seq<char>>, count: nat) -> Seq<Seq<char>>
    decreases count,
{
    if count == 0 {
        Seq::empty()
    } else {
        let l = trim_seq(lines[count - 1]);
        data_lines_of(lines, (count - 1) as nat) + if is_data_line(l) { seq![l] } else { Seq::empty() }
    }
}

/// The content lines of a table text: every line, trimmed, keeping those
/// that are neither blank nor comments. (A `\r` before a `\n` is whitespace,
/// so trimming removes it along with the rest.)
pub open spec fn data_lines(text: Seq<char>) -> Seq<Seq<char>> {
    data_lines_of(split_on(text, '\n'), split_on(text, '\n').len())
}

/// Whether a lower-cased header name names the wavelength column.
pub open spec fn is_wavelength_name(name: Seq<char>) -> bool {
    ||| name.len() >= 10 && name.take(10) == seq!['w', 'a', 'v', 'e', 'l', 'e', 'n', 'g', 't', 'h']
    ||| name.len() >= 6 && name.take(6) == seq!['l', 'a', 'm', 'b', 'd', 'a']
}

/// Whether a lower-cased header name names the wavelength column: it starts
/// with `wavelength` or `lambda`.
pub fn is_wavelength_column(name: &String) -> (b: bool)
    ensures
        b == is_wavelength_name(name@),
{
    let nc = chars_of(name.as_str());
    let wl = nc.len() >= 10 && nc[0] == 'w' && nc[1] == 'a' && nc[2] == 'v' && nc[3] == 'e' && nc[4] == 'l'
        && nc[5] == 'e' && nc[6] == 'n' && nc[7] == 'g' && nc[8] == 't' && nc[9] == 'h';
    let lam = nc.len() >= 6 && nc[0] == 'l' && nc[1] == 'a' && nc[2] == 'm' && nc[3] == 'b' && nc[4] == 'd'
        && nc[5] == 'a';
    proof {
        if nc@.len() >= 10 {
            assert(wl <==> nc@.take(10) =~= seq!['w', 'a', 'v', 'e', 'l', 'e', 'n', 'g', 't', 'h']);
        }
        if nc@.len() >= 6 {
            assert(lam <==> nc@.take(6) =~= seq!['l', 'a', 'm', 'b', 'd', 'a']);
        }
    }
    wl || lam
}

/// The error for a first column that is not the wavelength.
pub open spec fn first_column_message(raw_trimmed: Seq<char>) -> Seq<char> {
    "first column must be wavelength_nm; got '"@ + raw_trimmed + "'"@
}

/// The meaning of header fields `0 .. count` for an `n`-port table: `None`
/// for the wavelength column and for ignored columns, `Some((pair,
/// is_phase))` for a port pair; the first error met, field by field.
pub open spec fn columns_of(raws: Seq<Seq<char>>, n: nat, count: nat) -> Result<Seq<Option<(usize, bool)>>, Seq<char>>
    decreases count,
{
    if count == 0 {
        Ok(Seq::empty())
    } else {
        match columns_of(raws, n, (count - 1) as nat) {
            Err(e) => Err(e),
            Ok(prev) => {
                let c = count - 1;
                let name = lowercased(trim_seq(raws[c]));
                if c == 0 {
                    if is_wavelength_name(name) {
                        Ok(prev.push(None))
                    } else {
                        Err(first_column_message(trim_seq(raws[0])))
                    }
                } else {
                    match pair_column(name, n) {
                        Err(e) => Err(e),
                        Ok(v) => Ok(prev.push(v)),
                    }
                }
            },
        }
    }
}

/// Once a field fails, the header fails with that error.
proof fn lemma_columns_err_stays(raws: Seq<Seq<char>>, n: nat, m: nat, total: nat, e: Seq<char>)
    requires
        m <= total,
        columns_of(raws, n, m) == Err::<Seq<Option<(usize, bool)>>, Seq<char>>(e),
    ensures
        columns_of(raws, n, total) == Err::<Seq<Option<(usize, bool)>>, Seq<char>>(e),
    decreases total - m,
{
    if m < total {
        assert(columns_of(raws, n, (m + 1) as nat) == Err::<Seq<Option<(usize, bool)>>, Seq<char>>(e));
        lemma_columns_err_stays(raws, n, (m + 1) as nat, total, e);
    }
}

/// The meaning of every column of a header line.
pub open spec fn header_columns(header: Seq<char>, n: nat) -> Result<Seq<Option<(usize, bool)>>, Seq<char>> {
    columns_of(split_on(header, ','), n, split_on(header, ',').len())
}

/// The `[start, end)` ranges of `c[from..]` between `sep` characters, in
/// order: `str::split` by index.
pub fn split_ranges(c: &[char], from: usize, sep: char) -> (r: Vec<(usize, usize)>)
    requires
        from <= c@.len(),
    ensures
        pieces(c@, r@) == split_on(c@.skip(from as int), sep),
        forall|t: int| 0 <= t < r@.len() ==> from <= #[trigger] r@[t].0 <= r@[t].1 <= c@.len(),
{
    let len = c.len();
    let ghost rest = c@.skip(from as int);
    let mut done: Vec<(usize, usize)> = Vec::new();
    let mut cur: usize = from;
    let mut i: usize = from;
    assert(c@.subrange(from as int, from as int) =~= Seq::<char>::empty());
    assert(rest.take(0) =~= Seq::<char>::empty());
    assert(pieces(c@, done@).push(Seq::<char>::empty()) =~= seq![Seq::<char>::empty()]);
    while i < len
        invariant
            from <= cur <= i <= len,
            len == c@.len(),
            rest == c@.skip(from as int),
            forall|t: int| 0 <= t < done@.len() ==> from <= #[trigger] done@[t].0 <= done@[t].1 <= i,
            split_on(rest.take(i - from), sep) == pieces(c@, done@).push(c@.subrange(cur as int, i as int)),
        decreases len - i,
    {
        let ghost before = rest.take(i - from);
        let ghost after = rest.take(i + 1 - from);
        assert(after.drop_last() =~= before);
        assert(after.last() == c@[i as int]);
        if c[i] == sep {
            done.push((cur, i));
            cur = i + 1;
            assert(pieces(c@, done@) =~= pieces(c@, done@.drop_last()).push(c@.subrange(done@.last().0 as int, i as int)));
            assert(c@.subrange(i + 1, i + 1) =~= Seq::<char>::empty());
            assert(split_on(after, sep) =~= pieces(c@, done@).push(c@.subrange(cur as int, i + 1)));
        } else {
            assert(c@.subrange(cur as int, i + 1) =~= c@.subrange(cur as int, i as int).push(c@[i as int]));
            assert(split_on(after, sep) =~= pieces(c@, done@).push(c@.subrange(cur as int, i + 1)));
        }
        i = i + 1;
    }
    assert(rest.take(len - from) =~= rest);
    let ghost before_last = done@;
    done.push((cur, len));
    assert(pieces(c@, done@) =~= pieces(c@, before_last).push(c@.subrange(cur as int, len as int)));
    done
}

/// Copy of `c[from..to]`.
fn copy_chars(c: &[char], from: usize, to: usize) -> (v: Vec<char>)
    requires
        from <= to <= c@.len(),
    ensures
        v@ == c@.subrange(from as int, to as int),
{
    let mut v: Vec<char> = Vec::new();
    let mut i: usize = from;
    while i < to
        invariant
            from <= i <= to <= c@.len(),
            v@ == c@.subrange(from as int, i as int),
        decreases to - i,
    {
        v.push(c[i]);
        i = i + 1;
        assert(v@ =~= c@.subrange(from as int, i as int));
    }
    v
}

/// The content lines of a table text, trimmed, in order.
pub fn table_lines(text: &str) -> (r: Vec<Vec<char>>)
    ensures
        r@.len() == data_lines(text@).len(),
        forall|i: int| 0 <= i < r@.len() ==> (#[trigger] r@[i])@ == data_lines(text@)[i],
{
    let c = chars_of(text);
    let ranges = split_ranges(c.as_slice(), 0, '\n');
    assert(c@.skip(0) =~= c@);
    let ghost lines = split_on(text@, '\n');
    let mut r: Vec<Vec<char>> = Vec::new();
    let mut q: usize = 0;
    while q < ranges.len()
        invariant
            q <= ranges@.len(),
            c@ == text@,
            lines == split_on(text@, '\n'),
            pieces(c@, ranges@) == lines,
            forall|t: int| 0 <= t < ranges@.len() ==> 0 <= #[trigger] ranges@[t].0 <= ranges@[t].1 <= c@.len(),
            r@.len() == data_lines_of(lines, q as nat).len(),
            forall|i: int| 0 <= i < r@.len() ==> (#[trigger] r@[i])@ == data_lines_of(lines, q as nat)[i],
        decreases ranges@.len() - q,
    {
        let (a, b) = ranges[q];
        let piece = copy_chars(c.as_slice(), a, b);
        assert(piece@ == lines[q as int]);
        let tc = trim_chars(piece.as_slice());
        let ghost prev = data_lines_of(lines, q as nat);
        if tc.len() > 0 && tc[0] != '#' && tc[0] != '*' {
            r.push(tc);
            assert(data_lines_of(lines, (q + 1) as nat) =~= prev.push(trim_seq(lines[q as int])));
        } else {
            assert(data_lines_of(lines, (q + 1) as nat) =~= prev);
        }
        q = q + 1;
    }
    assert(lines.len() == ranges@.len());
    r
}

/// The meaning of every column of `header` in an `n`-port table: `None`
/// for the wavelength column (which must come first) and for columns the
/// table ignores, the port pair and kind otherwise.
pub fn table_columns(header: &[char], n: usize) -> (r: Result<Vec<Option<(usize, bool)>>, String>)
    requires
        n * n <= usize::MAX,
    ensures
        match r {
            Ok(v) => header_columns(header@, n as nat) == Ok::<Seq<Option<(usize, bool)>>, Seq<char>>(v@),
            Err(e) => header_columns(header@, n as nat) == Err::<Seq<Option<(usize, bool)>>, Seq<char>>(e@),
        },
{
    let ranges = split_ranges(header, 0, ',');
    assert(header@.skip(0) =~= header@);
    let ghost raws = split_on(header@, ',');
    let mut cols: Vec<Option<(usize, bool)>> = Vec::new();
    let mut q: usize = 0;
    while q < ranges.len()
        invariant
            q <= ranges@.len(),
            n * n <= usize::MAX,
            raws == split_on(header@, ','),
            pieces(header@, ranges@) == raws,
            forall|t: int| 0 <= t < ranges@.len() ==> 0 <= #[trigger] ranges@[t].0 <= ranges@[t].1 <= header@.len(),
            columns_of(raws, n as nat, q as nat) == Ok::<Seq<Option<(usize, bool)>>, Seq<char>>(cols@),
        decreases ranges@.len() - q,
    {
        let (a, b) = ranges[q];
        let piece = copy_chars(header, a, b);
        assert(piece@ == raws[q as int]);
        let raw_trimmed = trim_chars(piece.as_slice());
        let name = lowercase_chars(raw_trimmed.as_slice());
        if q == 0 {
            if !is_wavelength_column(&name) {
                let mut msg = String::from_str("first column must be wavelength_nm; got '");
                let shown = string_of(raw_trimmed.as_slice());
                msg.append(shown.as_str());
                msg.append("'");
                proof {
                    reveal_strlit("first column must be wavelength_nm; got '");
                    reveal_strlit("'");
                }
                assert(msg@ =~= first_column_message(trim_seq(raws[0])));
                proof {
                    lemma_columns_err_stays(raws, n as nat, 1, raws.len(), msg@);
                }
                return Err(msg);
            }
            cols.push(None);
        } else {
            match parse_pair_column(name.as_str(), n) {
                Err(e) => {
                    proof {
                        lemma_columns_err_stays(raws, n as nat, (q + 1) as nat, raws.len(), e@);
                    }
                    return Err(e);
                },
                Ok(v) => {
                    cols.push(v);
                },
            }
        }
        q = q + 1;
    }
    assert(raws.len() == ranges@.len());
    Ok(cols)
}

/// The layout of a table text for an `n`-port device: the column meanings
/// of its header (its first content line) and its remaining content lines,
/// the data rows.
pub open spec fn table_layout(text: Seq<char>, n: nat) -> Result<(Seq<Option<(usize, bool)>>, Seq<Seq<char>>), Seq<char>> {
    let lines = data_lines(text);
    if lines.len() == 0 {
        Err("empty S-parameter file"@)
    } else {
        match header_columns(lines[0], n) {
            Err(e) => Err(e),
            Ok(cols) => Ok((cols, lines.skip(1))),
        }
    }
}

/// Split a table text into its header's column meanings and its data rows;
/// an empty table, a first column that is not the wavelength, or a port
/// pair outside the `n×n` range is an error.
pub fn table_layout_of(text: &str, n: usize) -> (r: Result<(Vec<Option<(usize, bool)>>, Vec<Vec<char>>), String>)
    requires
        n * n <= usize::MAX,
    ensures
        match r {
            Ok((cols, rows)) => table_layout(text@, n as nat) is Ok && ({
                let (c, l) = table_layout(text@, n as nat)->Ok_0;
                &&& cols@ == c
                &&& rows@.len() == l.len()
                &&& forall|i: int| 0 <= i < rows@.len() ==> (#[trigger] rows@[i])@ == l[i]
            }),
            Err(e) => table_layout(text@, n as nat) == Err::<(Seq<Option<(usize, bool)>>, Seq<Seq<char>>), Seq<char>>(e@),
        },
{
    let mut lines = table_lines(text);
    if lines.len() == 0 {
        let msg = String::from_str("empty S-parameter file");
        return Err(msg);
    }
    let ghost all = data_lines(text@);
    let cols = match table_columns(lines[0].as_slice(), n) {
        Err(e) => {
            return Err(e);
        },
        Ok(c) => c,
    };
    let ghost before = lines@;
    let _header = lines.remove(0);
    assert forall|i: int| 0 <= i < lines@.len() implies (#[trigger] lines@[i])@ == all.skip(1)[i] by {
        assert(lines@[i] == before[i + 1]);
    }
    Ok((cols, lines))
}

} // verus!
