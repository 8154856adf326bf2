//! Ordering the channel list: by name ignoring case, or by programme count
//! (most first) and then by name. The sort is stable: channels that compare
//! equal keep the order they had.
use vstd::prelude::*;

use crate::app::{App, AppView, SortMode};
use crate::guide::ChannelRow;
use crate::text::{lemma_lex_total, lemma_lex_trans, lex_le, lex_le_exec, lower, to_lower, chars_of};

verus! {

/// Row `a` may come before row `b`: its lowercased name is not greater,
/// or, by count, it has more programmes or as many and a name not greater.
pub open spec fn row_le(mode: SortMode, a: ChannelRow, b: ChannelRow) -> bool {
    let ka = lower(a.display_name@);
    let kb = lower(b.display_name@);
    match mode {
        SortMode::Name => lex_le(ka, kb),
        SortMode::Count => a.prog_count > b.prog_count || (a.prog_count == b.prog_count && lex_le(
            ka,
            kb,
        )),
    }
}

/// Every two rows are ordered one way or the other.
pub proof fn lemma_row_le_total(mode: SortMode, a: ChannelRow, b: ChannelRow)
    ensures
        row_le(mode, a, b) || row_le(mode, b, a),
{
    lemma_lex_total(lower(a.display_name@), lower(b.display_name@));
}

/// The order is transitive.
pub proof fn lemma_row_le_trans(mode: SortMode, a: ChannelRow, b: ChannelRow, c: ChannelRow)
    requires
        row_le(mode, a, b),
        row_le(mode, b, c),
    ensures
        row_le(mode, a, c),
{
    let (ka, kb, kc) = (lower(a.display_name@), lower(b.display_name@), lower(c.display_name@));
    match mode {
        SortMode::Name => lemma_lex_trans(ka, kb, kc),
        SortMode::Count => {
            if a.prog_count == b.prog_count && b.prog_count == c.prog_count {
                lemma_lex_trans(ka, kb, kc);
            }
        },
    }
}

/// Where row `x` goes among the first `k` rows of `order`: after the last
/// of them that may come before it.
pub open spec fn ins_pos(mode: SortMode, rows: Seq<ChannelRow>, order: Seq<usize>, x: usize, k: nat) -> nat
    decreases k,
{
    if k == 0 {
        0
    } else if row_le(mode, rows[order[k - 1] as int], rows[x as int]) {
        k
    } else {
        ins_pos(mode, rows, order, x, (k - 1) as nat)
    }
}

/// The order of the first `n` rows after inserting each in turn.
pub open spec fn sort_order(mode: SortMode, rows: Seq<ChannelRow>, n: nat) -> Seq<usize>
    decreases n,
{
    if n == 0 {
        Seq::empty()
    } else {
        let o = sort_order(mode, rows, (n - 1) as nat);
        o.insert(ins_pos(mode, rows, o, (n - 1) as usize, o.len()) as int, (n - 1) as usize)
    }
}

/// The rows in sorted order.
pub open spec fn sorted_rows(mode: SortMode, rows: Seq<ChannelRow>) -> Seq<ChannelRow> {
    let o = sort_order(mode, rows, rows.len());
    Seq::new(o.len(), |k: int| rows[o[k] as int])
}

/// `order` lists each of `0..n` exactly once, the rows it lists are in
/// order, and rows that compare equal keep their original order.
pub open spec fn is_stable_order(mode: SortMode, rows: Seq<ChannelRow>, order: Seq<usize>, n: nat) -> bool {
    &&& order.len() == n
    &&& forall|k: int| 0 <= k < n ==> (#[trigger] order[k]) < n
    &&& forall|k: int, l: int| 0 <= k < l < n ==> (#[trigger] order[k]) != (#[trigger] order[l])
    &&& forall|k: int, l: int|
        0 <= k < l < n ==> row_le(mode, rows[(#[trigger] order[k]) as int], rows[(#[trigger] order[l]) as int])
    &&& forall|k: int, l: int|
        0 <= k < l < n && row_le(mode, rows[(#[trigger] order[l]) as int], rows[(#[trigger] order[k]) as int])
            ==> order[k] < order[l]
}

proof fn lemma_ins_pos(mode: SortMode, rows: Seq<ChannelRow>, o: Seq<usize>, x: usize, k: nat)
    requires
        k <= o.len(),
        forall|a: int, b: int| 0 <= a < b < k ==> row_le(mode, rows[(#[trigger] o[a]) as int], rows[(#[trigger] o[b]) as int]),
    ensures
        ins_pos(mode, rows, o, x, k) <= k,
        forall|j: int| ins_pos(mode, rows, o, x, k) <= j < k ==> !row_le(mode, rows[(#[trigger] o[j]) as int], rows[x as int]),
        forall|j: int| 0 <= j < ins_pos(mode, rows, o, x, k) ==> row_le(mode, rows[(#[trigger] o[j]) as int], rows[x as int]),
    decreases k,
{
    if k > 0 {
        if row_le(mode, rows[o[k - 1] as int], rows[x as int]) {
            assert forall|j: int| 0 <= j < k implies row_le(mode, rows[(#[trigger] o[j]) as int], rows[x as int]) by {
                if j < k - 1 {
                    lemma_row_le_trans(mode, rows[o[j] as int], rows[o[k - 1] as int], rows[x as int]);
                }
            }
        } else {
            lemma_ins_pos(mode, rows, o, x, (k - 1) as nat);
        }
    }
}

/// Inserting each row in turn yields a stable sorted order of the rows.
pub proof fn lemma_sort_order_stable(mode: SortMode, rows: Seq<ChannelRow>, n: nat)
    requires
        n <= rows.len(),
        rows.len() <= usize::MAX,
    ensures
        is_stable_order(mode, rows, sort_order(mode, rows, n), n),
    decreases n,
{
    if n > 0 {
        lemma_sort_order_stable(mode, rows, (n - 1) as nat);
        let o = sort_order(mode, rows, (n - 1) as nat);
        let x = (n - 1) as usize;
        let p = ins_pos(mode, rows, o, x, o.len());
        lemma_ins_pos(mode, rows, o, x, o.len());
        let o2 = o.insert(p as int, x);
        assert(o2 == sort_order(mode, rows, n));
        assert forall|k: int| 0 <= k < n implies (#[trigger] o2[k]) < n by {
            if k < p {
                assert(o2[k] == o[k]);
            } else if k > p {
                assert(o2[k] == o[k - 1]);
            }
        }
        assert forall|k: int, l: int| 0 <= k < l < n implies (#[trigger] o2[k]) != (#[trigger] o2[l]) by {
            if k < p && l < p {
                assert(o2[k] == o[k] && o2[l] == o[l]);
            } else if k < p && l == p {
                assert(o2[k] == o[k]);
            } else if k < p && l > p {
                assert(o2[k] == o[k] && o2[l] == o[l - 1]);
            } else if k == p {
                assert(o2[l] == o[l - 1]);
            } else {
                assert(o2[k] == o[k - 1] && o2[l] == o[l - 1]);
            }
        }
        assert forall|k: int, l: int| 0 <= k < l < n implies row_le(
            mode,
            rows[(#[trigger] o2[k]) as int],
            rows[(#[trigger] o2[l]) as int],
        ) by {
            if k < p && l < p {
                assert(o2[k] == o[k] && o2[l] == o[l]);
            } else if k < p && l == p {
                assert(o2[k] == o[k]);
            } else if k < p && l > p {
                assert(o2[k] == o[k] && o2[l] == o[l - 1]);
            } else if k == p {
                assert(o2[l] == o[l - 1]);
                lemma_row_le_total(mode, rows[x as int], rows[o[l - 1] as int]);
            } else {
                assert(o2[k] == o[k - 1] && o2[l] == o[l - 1]);
            }
        }
        assert forall|k: int, l: int|
            0 <= k < l < n && row_le(mode, rows[(#[trigger] o2[l]) as int], rows[(#[trigger] o2[k]) as int])
            implies o2[k] < o2[l] by {
            if k < p && l < p {
                assert(o2[k] == o[k] && o2[l] == o[l]);
            } else if k < p && l == p {
                assert(o2[k] == o[k]);
            } else if k < p && l > p {
                assert(o2[k] == o[k] && o2[l] == o[l - 1]);
            } else if k == p {
                assert(o2[l] == o[l - 1]);
            } else {
                assert(o2[k] == o[k - 1] && o2[l] == o[l - 1]);
            }
        }
    }
}

/// The sorted list holds the same channels, each once, in key order, and
/// channels with equal keys in their original order.
pub proof fn lemma_sorted_rows_stable(mode: SortMode, rows: Seq<ChannelRow>)
    requires
        rows.len() <= usize::MAX,
    ensures
        sorted_rows(mode, rows).len() == rows.len(),
        exists|order: Seq<usize>|
            {
                &&& is_stable_order(mode, rows, order, rows.len())
                &&& forall|k: int|
                    0 <= k < rows.len() ==> (#[trigger] sorted_rows(mode, rows)[k]) == rows[order[k] as int]
            },
{
    lemma_sort_order_stable(mode, rows, rows.len());
    let order = sort_order(mode, rows, rows.len());
    assert(forall|k: int| 0 <= k < rows.len() ==> (#[trigger] sorted_rows(mode, rows)[k]) == rows[order[k] as int]);
}

impl AppView {
    pub open spec fn apply_sort(self) -> AppView {
        AppView { channels: sorted_rows(self.sort, self.channels), ..self }
    }
}

/// Lowercased names of the rows.
fn name_keys(rows: &Vec<ChannelRow>) -> (keys: Vec<Vec<char>>)
    ensures
        keys@.len() == rows@.len(),
        forall|i: int| 0 <= i < rows@.len() ==> (#[trigger] keys@[i])@ == lower(rows@[i].display_name@),
{
    let mut keys: Vec<Vec<char>> = Vec::new();
    let mut i: usize = 0;
    while i < rows.len()
        invariant
            i <= rows@.len(),
            keys@.len() == i,
            forall|j: int| 0 <= j < i ==> (#[trigger] keys@[j])@ == lower(rows@[j].display_name@),
        decreases rows.len() - i,
    {
        let l = to_lower(rows[i].display_name.as_str());
        keys.push(chars_of(l.as_str()));
        i = i + 1;
    }
    keys
}

fn row_le_exec(mode: SortMode, keys: &Vec<Vec<char>>, rows: &Vec<ChannelRow>, a: usize, b: usize) -> (r: bool)
    requires
        keys@.len() == rows@.len(),
        forall|i: int| 0 <= i < rows@.len() ==> (#[trigger] keys@[i])@ == lower(rows@[i].display_name@),
        a < rows@.len(),
        b < rows@.len(),
    ensures
        r == row_le(mode, rows@[a as int], rows@[b as int]),
{
    let names = lex_le_exec(&keys[a], &keys[b]);
    match mode {
        SortMode::Name => names,
        SortMode::Count => {
            let (ca, cb) = (rows[a].prog_count, rows[b].prog_count);
            ca > cb || (ca == cb && names)
        },
    }
}

/// The stable sorted order of the rows, as indices.
fn sort_order_exec(mode: SortMode, rows: &Vec<ChannelRow>) -> (order: Vec<usize>)
    ensures
        order@ == sort_order(mode, rows@, rows@.len()),
{
    let keys = name_keys(rows);
    let mut order: Vec<usize> = Vec::new();
    let mut i: usize = 0;
    while i < rows.len()
        invariant
            i <= rows@.len(),
            keys@.len() == rows@.len(),
            forall|j: int| 0 <= j < rows@.len() ==> (#[trigger] keys@[j])@ == lower(rows@[j].display_name@),
            order@ == sort_order(mode, rows@, i as nat),
        decreases rows.len() - i,
    {
        proof {
            lemma_sort_order_stable(mode, rows@, i as nat);
        }
        let mut pos = order.len();
        while pos > 0 && !row_le_exec(mode, &keys, rows, order[pos - 1], i)
            invariant
                pos <= order@.len(),
                i < rows@.len(),
                keys@.len() == rows@.len(),
                forall|j: int| 0 <= j < rows@.len() ==> (#[trigger] keys@[j])@ == lower(rows@[j].display_name@),
                is_stable_order(mode, rows@, order@, i as nat),
                ins_pos(mode, rows@, order@, i, order@.len()) == ins_pos(mode, rows@, order@, i, pos as nat),
            decreases pos,
        {
            pos = pos - 1;
        }
        order.insert(pos, i);
        i = i + 1;
    }
    order
}

impl App {
    /// Orders the channel list by the current sort mode, stably.
    pub fn apply_sort(&mut self)
        ensures
            final(self)@ == old(self)@.apply_sort(),
            exists|order: Seq<usize>|
                {
                    &&& is_stable_order(old(self).sort, old(self).channels@, order, old(self).channels@.len())
                    &&& forall|k: int|
                        0 <= k < old(self).channels@.len() ==> (#[trigger] final(self).channels@[k])
                            == old(self).channels@[order[k] as int]
                },
    {
        let order = sort_order_exec(self.sort, &self.channels);
        let n = self.channels.len();
        proof {
            lemma_sort_order_stable(self.sort, self.channels@, n as nat);
        }
        let mut out: Vec<ChannelRow> = Vec::new();
        let mut k: usize = 0;
        while k < n
            invariant
                k <= n,
                n == self.channels@.len(),
                is_stable_order(self.sort, self.channels@, order@, n as nat),
                out@ == Seq::new(k as nat, |j: int| self.channels@[order@[j] as int]),
            decreases n - k,
        {
            out.push(self.channels[order[k]].clone());
            assert(out@ =~= Seq::new((k + 1) as nat, |j: int| self.channels@[order@[j] as int]));
            k = k + 1;
        }
        proof {
            lemma_sorted_rows_stable(self.sort, self.channels@);
            assert(out@ =~= sorted_rows(self.sort, self.channels@));
        }
        self.channels = out;
    }
}

} // verus!
