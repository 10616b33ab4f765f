//! Column naming of measured `N×N` spectrum tables: `t_<i>_<j>_db` holds the
//! power transmission from input `i` to output `j`, `t_<i>_<j>_deg` its
//! phase.

use vstd::prelude::*;
use crate::text::chars_of;
use crate::decimal::{decimal, is_digit, lemma_decimal_digits, lemma_parse_decimal, parse_usize, parse_usize_spec, push_decimal};

verus! {

/// `str::split(sep)` on a character sequence: the pieces between the
/// separators, in order; `n` separators give `n + 1` pieces.
pub open spec fn split_on(s: Seq<char>, sep: char) -> Seq<Seq<char>>
    decreases s.len(),
{
    if s.len() == 0 {
        seq![Seq::empty()]
    } else {
        let p = split_on(s.drop_last(), sep);
        if s.last() == sep {
            p.push(Seq::empty())
        } else {
            p.update(p.len() - 1, p.last().push(s.last()))
        }
    }
}

proof fn lemma_split_nonempty(s: Seq<char>, sep: char)
    ensures
        split_on(s, sep).len() >= 1,
    decreases s.len(),
{
    if s.len() > 0 {
        lemma_split_nonempty(s.drop_last(), sep);
    }
}

/// The error text for a pair index outside the `n×n` port range.
pub open spec fn out_of_range_message(i: nat, j: nat, n: nat) -> Seq<char> {
    "column 't_"@ + decimal(i) + "_"@ + decimal(j) + "_…' is outside the "@ + decimal(n) + "×"@
        + decimal(n) + " port range implied by the netlist"@
}

/// What a spectrum-table column header means for an `n`-port table:
/// `t_<i>_<j>_db` / `t_<i>_<j>_deg` is pair `i·n + j` (magnitude / phase);
/// any other name is ignored; a pair index `≥ n` is an error.
pub open spec fn pair_column(name: Seq<char>, n: nat) -> Result<Option<(usize, bool)>, Seq<char>> {
    if !(name.len() >= 2 && name[0] == 't' && name[1] == '_') {
        Ok(None)
    } else {
        let parts = split_on(name.skip(2), '_');
        if parts.len() != 3 {
            Ok(None)
        } else {
            let kind: Option<bool> = if parts[2] == seq!['d', 'b'] {
                Some(false)
            } else if parts[2] == seq!['d', 'e', 'g'] {
                Some(true)
            } else {
                None
            };
            match (kind, parse_usize_spec(parts[0]), parse_usize_spec(parts[1])) {
                (Some(is_phase), Some(i), Some(j)) => if i >= n || j >= n {
                    Err(out_of_range_message(i as nat, j as nat, n))
                } else {
                    Ok(Some(((i * n + j) as usize, is_phase)))
                },
                _ => Ok(None),
            }
        }
    }
}

/// The pieces a list of `[start, end)` ranges cuts out of `c`.
pub open spec fn pieces(c: Seq<char>, ranges: Seq<(usize, usize)>) -> Seq<Seq<char>> {
    Seq::new(ranges.len(), |t: int| c.subrange(ranges[t].0 as int, ranges[t].1 as int))
}

/// `"t_2_5_db"` → `Some((2·n + 5, false))`. Unrecognised columns are ignored
/// (returns `Ok(None)`) so extra bookkeeping columns don't break the file.
pub fn parse_pair_column(name: &str, n: usize) -> (r: Result<Option<(usize, bool)>, String>)
    requires
        n * n <= usize::MAX,
    ensures
        match r {
            Ok(v) => pair_column(name@, n as nat) == Ok::<Option<(usize, bool)>, Seq<char>>(v),
            Err(e) => pair_column(name@, n as nat) == Err::<Option<(usize, bool)>, Seq<char>>(e@),
        },
{
    let c = chars_of(name);
    let len = c.len();
    if !(len >= 2 && c[0] == 't' && c[1] == '_') {
        return Ok(None);
    }
    let ghost rest = c@.skip(2);
    // Split the rest at '_' into [start, end) ranges of `c`.
    let mut done: Vec<(usize, usize)> = Vec::new();
    let mut cur: usize = 2;
    let mut i: usize = 2;
    assert(c@.subrange(2, 2) =~= Seq::<char>::empty());
    assert(rest.take(0) =~= Seq::<char>::empty());
    while i < len
        invariant
            2 <= cur <= i <= len,
            len == c@.len(),
            rest == c@.skip(2),
            forall|t: int| 0 <= t < done@.len() ==> 2 <= #[trigger] done@[t].0 <= done@[t].1 <= i,
            split_on(rest.take(i - 2), '_') == pieces(c@, done@).push(c@.subrange(cur as int, i as int)),
        decreases len - i,
    {
        let ghost before = rest.take(i - 2);
        let ghost after = rest.take(i + 1 - 2);
        assert(after.drop_last() =~= before);
        assert(after.last() == c@[i as int]);
        if c[i] == '_' {
            done.push((cur, i));
            cur = i + 1;
            assert(pieces(c@, done@) =~= pieces(c@, done@.drop_last()).push(c@.subrange(done@.last().0 as int, i as int)));
            assert(c@.subrange(i + 1, i + 1) =~= Seq::<char>::empty());
            assert(split_on(after, '_') =~= pieces(c@, done@).push(c@.subrange(cur as int, i + 1)));
        } else {
            assert(c@.subrange(cur as int, i + 1) =~= c@.subrange(cur as int, i as int).push(c@[i as int]));
            assert(split_on(after, '_') =~= pieces(c@, done@).push(c@.subrange(cur as int, i + 1)));
        }
        i = i + 1;
    }
    assert(rest.take(len - 2) =~= rest);
    let ghost parts = split_on(rest, '_');
    if done.len() != 2 {
        return Ok(None);
    }
    assert(parts[0] == c@.subrange(done@[0].0 as int, done@[0].1 as int));
    assert(parts[1] == c@.subrange(done@[1].0 as int, done@[1].1 as int));
    assert(parts[2] == c@.subrange(cur as int, len as int));
    let is_phase = if len - cur == 2 && c[cur] == 'd' && c[cur + 1] == 'b' {
        assert(parts[2] =~= seq!['d', 'b']);
        false
    } else if len - cur == 3 && c[cur] == 'd' && c[cur + 1] == 'e' && c[cur + 2] == 'g' {
        assert(parts[2] =~= seq!['d', 'e', 'g']);
        true
    } else {
        assert(parts[2] != seq!['d', 'b']) by {
            if parts[2] == seq!['d', 'b'] {
                assert(parts[2].len() == 2 && parts[2][0] == 'd' && parts[2][1] == 'b');
            }
        }
        assert(parts[2] != seq!['d', 'e', 'g']) by {
            if parts[2] == seq!['d', 'e', 'g'] {
                assert(parts[2].len() == 3 && parts[2][0] == 'd' && parts[2][1] == 'e' && parts[2][2] == 'g');
            }
        }
        return Ok(None);
    };
    let (a0, a1) = done[0];
    let (b0, b1) = done[1];
    let pi = parse_usize(c.as_slice(), a0, a1);
    let pj = parse_usize(c.as_slice(), b0, b1);
    let (i, j) = match (pi, pj) {
        (Some(i), Some(j)) => (i, j),
        _ => {
            return Ok(None);
        },
    };
    if i >= n || j >= n {
        let mut msg = String::from_str("column 't_");
        push_decimal(&mut msg, i);
        msg.append("_");
        push_decimal(&mut msg, j);
        msg.append("_…' is outside the ");
        push_decimal(&mut msg, n);
        msg.append("×");
        push_decimal(&mut msg, n);
        msg.append(" port range implied by the netlist");
        return Err(msg);
    }
    assert(i * n + j < n * n) by (nonlinear_arith)
        requires i < n, j < n;
    Ok(Some((i * n + j, is_phase)))
}


/// A string without the separator is a single piece.
proof fn lemma_split_whole(a: Seq<char>, sep: char)
    requires
        forall|i: int| 0 <= i < a.len() ==> a[i] != sep,
    ensures
        split_on(a, sep) == seq![a],
    decreases a.len(),
{
    if a.len() > 0 {
        lemma_split_whole(a.drop_last(), sep);
        assert(a.drop_last().push(a.last()) =~= a);
        assert(a.last() != sep);
        assert(seq![a.drop_last()].update(0, a) =~= seq![a]);
    } else {
        assert(a =~= Seq::<char>::empty());
    }
}

/// Splitting at a separator between `a` and `b` splits `a` and `b` apart.
proof fn lemma_split_join(a: Seq<char>, b: Seq<char>, sep: char)
    ensures
        split_on(a + seq![sep] + b, sep) == split_on(a, sep) + split_on(b, sep),
    decreases b.len(),
{
    lemma_split_nonempty(a, sep);
    if b.len() == 0 {
        assert(a + seq![sep] + b =~= a.push(sep));
        assert((a.push(sep)).drop_last() =~= a);
        assert(split_on(b, sep) =~= seq![Seq::<char>::empty()]);
        assert(split_on(a, sep).push(Seq::empty()) =~= split_on(a, sep) + seq![Seq::<char>::empty()]);
    } else {
        let whole = a + seq![sep] + b;
        let b0 = b.drop_last();
        lemma_split_join(a, b0, sep);
        lemma_split_nonempty(b0, sep);
        assert(whole.drop_last() =~= a + seq![sep] + b0);
        assert(whole.last() == b.last());
        let p = split_on(a, sep);
        let q = split_on(b0, sep);
        if b.last() == sep {
            assert((p + q).push(Seq::empty()) =~= p + q.push(Seq::empty()));
        } else {
            assert((p + q).update((p + q).len() - 1, (p + q).last().push(b.last()))
                =~= p + q.update(q.len() - 1, q.last().push(b.last())));
        }
    }
}

/// The column name a table writes for pair `(i, j)` — `t_<i>_<j>_db`, or
/// `_deg` for its phase.
pub open spec fn pair_column_name(i: nat, j: nat, is_phase: bool) -> Seq<char> {
    seq!['t', '_'] + decimal(i) + seq!['_'] + decimal(j) + seq!['_']
        + if is_phase { seq!['d', 'e', 'g'] } else { seq!['d', 'b'] }
}

proof fn lemma_no_underscore_in_decimal(x: nat)
    ensures
        forall|t: int| 0 <= t < decimal(x).len() ==> decimal(x)[t] != '_',
{
    lemma_decimal_digits(x);
    assert forall|t: int| 0 <= t < decimal(x).len() implies decimal(x)[t] != '_' by {
        assert(is_digit(decimal(x)[t]));
    }
}

/// Every column a table for `n` ports names is read back as the pair it
/// names: `t_<i>_<j>_db` is magnitude pair `i·n + j`, `t_<i>_<j>_deg` its
/// phase.
pub proof fn lemma_pair_column_roundtrip(i: usize, j: usize, n: usize, is_phase: bool)
    requires
        i < n,
        j < n,
    ensures
        pair_column(pair_column_name(i as nat, j as nat, is_phase), n as nat)
            == Ok::<Option<(usize, bool)>, Seq<char>>(Some(((i * n + j) as usize, is_phase))),
{
    let di = decimal(i as nat);
    let dj = decimal(j as nat);
    let kind = if is_phase { seq!['d', 'e', 'g'] } else { seq!['d', 'b'] };
    let name = pair_column_name(i as nat, j as nat, is_phase);
    let rest = di + seq!['_'] + dj + seq!['_'] + kind;
    assert(name.skip(2) =~= rest);
    lemma_no_underscore_in_decimal(i as nat);
    lemma_no_underscore_in_decimal(j as nat);
    lemma_split_whole(di, '_');
    lemma_split_whole(dj, '_');
    lemma_split_whole(kind, '_');
    lemma_split_join(di, dj + seq!['_'] + kind, '_');
    assert(di + seq!['_'] + (dj + seq!['_'] + kind) =~= rest);
    lemma_split_join(dj, kind, '_');
    let parts = split_on(rest, '_');
    assert(parts =~= seq![di, dj, kind]);
    lemma_parse_decimal(i);
    lemma_parse_decimal(j);
    if !is_phase {
        assert(kind != seq!['d', 'e', 'g']) by {
            assert(kind.len() == 2);
        }
    }
}

/// A column index that the table accepts always lies in `0 .. n²`.
pub proof fn lemma_pair_index_in_range(name: Seq<char>, n: nat)
    ensures
        pair_column(name, n) matches Ok(Some((p, _))) ==> p < n * n,
{
    if let Ok(Some((p, _))) = pair_column(name, n) {
        let parts = split_on(name.skip(2), '_');
        let i = parse_usize_spec(parts[0])->0;
        let j = parse_usize_spec(parts[1])->0;
        assert(i * n + j < n * n) by (nonlinear_arith) requires i < n, j < n;
    }
}

} // verus!
