use vstd::prelude::*;
use crate::book::Sentence;
use crate::text::{is_force_split, is_marker};

verus! {

/// Total symbols of the sentences at positions `part`.
pub open spec fn part_symbols(syms: Seq<u32>, part: Seq<usize>) -> int
    decreases part.len(),
{
    if part.len() == 0 {
        0
    } else {
        part_symbols(syms, part.drop_last()) + syms[part.last() as int]
    }
}

/// Symbols of the sentences at positions `part` once joined by single spaces.
pub open spec fn joined_symbols(syms: Seq<u32>, part: Seq<usize>) -> int {
    if part.len() <= 1 {
        part_symbols(syms, part)
    } else {
        part_symbols(syms, part) + part.len() - 1
    }
}

/// The parts one after the other.
pub open spec fn flatten(parts: Seq<Seq<usize>>) -> Seq<usize>
    decreases parts.len(),
{
    if parts.len() == 0 {
        Seq::empty()
    } else {
        flatten(parts.drop_last()) + parts.last()
    }
}

/// Positions among the first `n` that are not force-split markers, in order.
pub open spec fn kept(forced: Seq<bool>, n: nat) -> Seq<usize>
    decreases n,
{
    if n == 0 {
        Seq::empty()
    } else if forced[n - 1] {
        kept(forced, (n - 1) as nat)
    } else {
        kept(forced, (n - 1) as nat).push((n - 1) as usize)
    }
}

/// The splitter's state between two sentences.
pub struct SplitState {
    /// Committed parts, as sentence positions.
    pub parts: Seq<Seq<usize>>,
    /// For each committed part, whether a forced segment was merged into it.
    pub merged: Seq<bool>,
    /// Sentences not committed yet.
    pub acc: Seq<usize>,
    /// Whether the last sentence was a force-split marker.
    pub last_forced: bool,
}

impl SplitState {
    /// Commits the accumulated sentences as a new part, if there are any.
    pub open spec fn commit(self) -> SplitState {
        if self.acc.len() == 0 {
            self
        } else {
            SplitState {
                parts: self.parts.push(self.acc),
                merged: self.merged.push(false),
                acc: Seq::empty(),
                last_forced: self.last_forced,
            }
        }
    }

    /// Appends the accumulated sentences to the last committed part.
    pub open spec fn merge_into_last(self) -> SplitState {
        let l = self.parts.len() - 1;
        SplitState {
            parts: self.parts.update(l, self.parts[l] + self.acc),
            merged: self.merged.update(l, true),
            acc: Seq::empty(),
            last_forced: self.last_forced,
        }
    }
}

/// Nothing committed, nothing accumulated.
pub open spec fn split_initial() -> SplitState {
    SplitState { parts: Seq::empty(), merged: Seq::empty(), acc: Seq::empty(), last_forced: false }
}

/// One step of the splitter, on the sentence at position `i`.
pub open spec fn split_step(st: SplitState, syms: Seq<u32>, forced: bool, i: usize, min: u32, max: u32) -> SplitState {
    if forced {
        let st1 = if st.acc.len() == 0 {
            st
        } else if joined_symbols(syms, st.acc) < min && !st.last_forced && st.parts.len() > 0 {
            st.merge_into_last()
        } else {
            st.commit()
        };
        SplitState { last_forced: true, ..st1 }
    } else {
        let current = part_symbols(syms, st.acc);
        let st1 = if current >= min && current + syms[i as int] > max {
            st.commit()
        } else {
            st
        };
        let st2 = SplitState { acc: st1.acc.push(i), last_forced: false, ..st1 };
        if part_symbols(syms, st2.acc) > max {
            st2.commit()
        } else {
            st2
        }
    }
}

/// The state after the first `n` sentences.
pub open spec fn split_run(syms: Seq<u32>, forced: Seq<bool>, min: u32, max: u32, n: nat) -> SplitState
    decreases n,
{
    if n == 0 {
        split_initial()
    } else {
        split_step(split_run(syms, forced, min, max, (n - 1) as nat), syms, forced[n - 1], (n - 1) as usize, min, max)
    }
}

/// The state after all sentences, with the last accumulated sentences committed.
pub open spec fn split_final(syms: Seq<u32>, forced: Seq<bool>, min: u32, max: u32) -> SplitState {
    split_run(syms, forced, min, max, syms.len()).commit()
}

/// The parts that splitting gives, as sentence positions.
pub open spec fn split_model(syms: Seq<u32>, forced: Seq<bool>, min: u32, max: u32) -> Seq<Seq<usize>> {
    split_final(syms, forced, min, max).parts
}

/// The parts as sequences of positions.
pub open spec fn parts_view(v: Seq<Vec<usize>>) -> Seq<Seq<usize>> {
    v.map_values(|p: Vec<usize>| p@)
}

/// Groups sentences into parts. `symbols[i]` is the symbol count of sentence
/// `i`, and `forced[i]` whether it is a force-split marker; the parts hold
/// sentence positions.
pub fn split_parts(symbols: &Vec<u32>, forced: &Vec<bool>, min: u32, max: u32) -> (r: Vec<Vec<usize>>)
    requires
        symbols.len() == forced.len(),
    ensures
        parts_view(r@) == split_model(symbols@, forced@, min, max),
{
    let ghost syms = symbols@;
    let mut parts: Vec<Vec<usize>> = Vec::new();
    let mut acc: Vec<usize> = Vec::new();
    let mut acc_symbols: u64 = 0;
    let mut last_forced = false;
    let ghost mut st = split_initial();
    let mut i: usize = 0;
    while i < symbols.len()
        invariant
            syms == symbols@,
            symbols.len() == forced.len(),
            i <= symbols.len(),
            st == split_run(syms, forced@, min, max, i as nat),
            parts_view(parts@) == st.parts,
            acc@ == st.acc,
            last_forced == st.last_forced,
            st.merged.len() == st.parts.len(),
            acc_symbols == part_symbols(syms, acc@),
            acc_symbols <= max,
            acc@.len() <= i,
        decreases symbols.len() - i,
    {
        let ghost next = split_step(st, syms, forced@[i as int], i, min, max);
        if forced[i] {
            if acc.len() > 0 {
                let joined: u128 = acc_symbols as u128 + (acc.len() - 1) as u128;
                if joined < min as u128 && !last_forced && parts.len() > 0 {
                    let mut last = parts.pop().unwrap();
                    last.append(&mut acc);
                    parts.push(last);
                    proof {
                        st = st.merge_into_last();
                        assert(parts_view(parts@) =~= st.parts);
                    }
                } else {
                    parts.push(acc);
                    acc = Vec::new();
                    proof {
                        st = st.commit();
                        assert(parts_view(parts@) =~= st.parts);
                    }
                }
                acc_symbols = 0;
                assert(acc@ =~= Seq::<usize>::empty());
            }
            last_forced = true;
            proof {
                st = SplitState { last_forced: true, ..st };
            }
        } else {
            let s = symbols[i];
            if acc_symbols >= min as u64 && acc_symbols + s as u64 > max as u64 {
                if acc.len() > 0 {
                    parts.push(acc);
                    acc = Vec::new();
                }
                acc_symbols = 0;
                proof {
                    st = st.commit();
                    assert(parts_view(parts@) =~= st.parts);
                    assert(acc@ =~= Seq::<usize>::empty());
                }
            }
            let ghost before = acc@;
            acc.push(i);
            acc_symbols = acc_symbols + s as u64;
            last_forced = false;
            proof {
                st = SplitState { acc: st.acc.push(i), last_forced: false, ..st };
                assert(acc@.drop_last() =~= before);
                assert(acc@.last() == i);
                assert(part_symbols(syms, acc@) == part_symbols(syms, before) + syms[i as int]);
            }
            if acc_symbols > max as u64 {
                parts.push(acc);
                acc = Vec::new();
                acc_symbols = 0;
                proof {
                    st = st.commit();
                    assert(parts_view(parts@) =~= st.parts);
                }
            }
        }
        assert(st == next);
        i = i + 1;
    }
    if acc.len() > 0 {
        parts.push(acc);
    }
    proof {
        st = st.commit();
        assert(parts_view(parts@) =~= st.parts);
    }
    parts
}

/// Symbol counts of the sentences, in order.
pub open spec fn symbols_of(sentences: Seq<Sentence>) -> Seq<u32> {
    sentences.map_values(|s: Sentence| s.info.size.symbols)
}

/// For each text, whether it marks a forced split.
pub open spec fn markers_of(texts: Seq<Option<String>>, marker: Option<String>) -> Seq<bool> {
    texts.map_values(|t: Option<String>| is_marker(t, marker))
}

/// Groups a book's sentences into parts; `texts[i]` is the text of
/// `sentences[i]`, none where it could not be had. The parts hold positions
/// in `sentences`.
pub fn split_sentences(
    sentences: &Vec<Sentence>,
    texts: &Vec<Option<String>>,
    split_by_paragraph: &Option<String>,
    min: u32,
    max: u32,
) -> (r: Vec<Vec<usize>>)
    requires
        sentences.len() == texts.len(),
    ensures
        parts_view(r@) == split_model(symbols_of(sentences@), markers_of(texts@, *split_by_paragraph), min, max),
{
    let mut symbols: Vec<u32> = Vec::new();
    let mut forced: Vec<bool> = Vec::new();
    let mut i: usize = 0;
    while i < sentences.len()
        invariant
            sentences.len() == texts.len(),
            i <= sentences.len(),
            symbols@ =~= symbols_of(sentences@).take(i as int),
            forced@ =~= markers_of(texts@, *split_by_paragraph).take(i as int),
        decreases sentences.len() - i,
    {
        symbols.push(sentences[i].info.size.symbols);
        forced.push(is_force_split(&texts[i], split_by_paragraph));
        i = i + 1;
    }
    assert(symbols@ =~= symbols_of(sentences@));
    assert(forced@ =~= markers_of(texts@, *split_by_paragraph));
    split_parts(&symbols, &forced, min, max)
}

/// A part keeps to the budget: it holds at most `max` symbols, or it is a
/// single sentence longer than `max`, or its last sentence was added while
/// the sentences before it were still short of `min`.
pub open spec fn within_budget(syms: Seq<u32>, part: Seq<usize>, min: u32, max: u32) -> bool {
    ||| part_symbols(syms, part) <= max
    ||| (part.len() == 1 && part_symbols(syms, part) > max)
    ||| part_symbols(syms, part.drop_last()) < min
}

/// What holds of the splitter's state after the first `n` sentences.
pub open spec fn split_inv(st: SplitState, syms: Seq<u32>, forced: Seq<bool>, min: u32, max: u32, n: nat) -> bool {
    &&& flatten(st.parts) + st.acc == kept(forced, n)
    &&& st.merged.len() == st.parts.len()
    &&& forall|k: int| 0 <= k < st.parts.len() ==> (#[trigger] st.parts[k]).len() > 0
    &&& forall|k: int| 0 <= k < st.parts.len() && !st.merged[k] ==> within_budget(syms, #[trigger] st.parts[k], min, max)
    &&& part_symbols(syms, st.acc) <= max
}

proof fn lemma_flatten_push(parts: Seq<Seq<usize>>, x: Seq<usize>)
    ensures
        flatten(parts.push(x)) == flatten(parts) + x,
{
    assert(parts.push(x).drop_last() =~= parts);
}

proof fn lemma_flatten_merge(parts: Seq<Seq<usize>>, x: Seq<usize>)
    requires
        parts.len() > 0,
    ensures
        flatten(parts.update(parts.len() - 1, parts.last() + x)) == flatten(parts) + x,
{
    let l = parts.len() - 1;
    assert(parts.update(l, parts.last() + x).drop_last() =~= parts.drop_last());
    assert(flatten(parts.drop_last()) + (parts.last() + x) =~= (flatten(parts.drop_last()) + parts.last()) + x);
}

proof fn lemma_commit_inv(st: SplitState, syms: Seq<u32>, min: u32, max: u32)
    requires
        st.merged.len() == st.parts.len(),
        forall|k: int| 0 <= k < st.parts.len() ==> (#[trigger] st.parts[k]).len() > 0,
        forall|k: int| 0 <= k < st.parts.len() && !st.merged[k] ==> within_budget(syms, #[trigger] st.parts[k], min, max),
        within_budget(syms, st.acc, min, max),
    ensures
        flatten(st.commit().parts) + st.commit().acc =~= flatten(st.parts) + st.acc,
        st.commit().merged.len() == st.commit().parts.len(),
        forall|k: int| 0 <= k < st.commit().parts.len() ==> (#[trigger] st.commit().parts[k]).len() > 0,
        forall|k: int| 0 <= k < st.commit().parts.len() && !st.commit().merged[k]
            ==> within_budget(syms, #[trigger] st.commit().parts[k], min, max),
        part_symbols(syms, st.commit().acc) == if st.acc.len() == 0 { part_symbols(syms, st.acc) } else { 0 },
{
    if st.acc.len() > 0 {
        lemma_flatten_push(st.parts, st.acc);
        let c = st.commit();
        assert forall|k: int| 0 <= k < c.parts.len() && !c.merged[k] implies within_budget(syms, #[trigger] c.parts[k], min, max) by {
            if k < st.parts.len() {
                assert(c.parts[k] == st.parts[k]);
            }
        }
    }
}

proof fn lemma_step_inv(st: SplitState, syms: Seq<u32>, forced: Seq<bool>, min: u32, max: u32, n: nat)
    requires
        syms.len() == forced.len(),
        n < forced.len(),
        split_inv(st, syms, forced, min, max, n),
    ensures
        split_inv(split_step(st, syms, forced[n as int], n as usize, min, max), syms, forced, min, max, n + 1),
{
    let i = n as usize;
    assert(kept(forced, n + 1) == if forced[n as int] { kept(forced, n) } else { kept(forced, n).push(i) });
    if forced[n as int] {
        if st.acc.len() == 0 {
        } else if joined_symbols(syms, st.acc) < min && !st.last_forced && st.parts.len() > 0 {
            let m = st.merge_into_last();
            lemma_flatten_merge(st.parts, st.acc);
            assert(m.acc =~= Seq::<usize>::empty());
            assert(flatten(m.parts) + m.acc =~= flatten(m.parts));
            assert forall|k: int| 0 <= k < m.parts.len() && !m.merged[k] implies within_budget(syms, #[trigger] m.parts[k], min, max) by {
                assert(k < m.parts.len() - 1);
                assert(m.parts[k] == st.parts[k]);
            }
            assert forall|k: int| 0 <= k < m.parts.len() implies (#[trigger] m.parts[k]).len() > 0 by {
                if k < m.parts.len() - 1 {
                    assert(m.parts[k] == st.parts[k]);
                }
            }
        } else {
            lemma_commit_inv(st, syms, min, max);
        }
    } else {
        let current = part_symbols(syms, st.acc);
        let committed = current >= min && current + syms[i as int] > max;
        let st1 = if committed { st.commit() } else { st };
        if committed {
            lemma_commit_inv(st, syms, min, max);
        }
        let st2 = SplitState { acc: st1.acc.push(i), last_forced: false, ..st1 };
        assert(st2.acc.drop_last() =~= st1.acc);
        assert(st2.acc.last() == i);
        assert(part_symbols(syms, st2.acc) == part_symbols(syms, st1.acc) + syms[i as int]);
        assert(flatten(st2.parts) + st2.acc =~= (flatten(st1.parts) + st1.acc).push(i));
        if part_symbols(syms, st2.acc) > max {
            if committed || st.acc.len() == 0 {
                assert(st1.acc.len() == 0);
                assert(st2.acc.len() == 1);
            } else {
                assert(part_symbols(syms, st2.acc.drop_last()) < min);
            }
            assert(within_budget(syms, st2.acc, min, max));
            lemma_commit_inv(st2, syms, min, max);
        }
    }
}

proof fn lemma_run_inv(syms: Seq<u32>, forced: Seq<bool>, min: u32, max: u32, n: nat)
    requires
        syms.len() == forced.len(),
        n <= forced.len(),
    ensures
        split_inv(split_run(syms, forced, min, max, n), syms, forced, min, max, n),
    decreases n,
{
    if n == 0 {
        assert(flatten(Seq::<Seq<usize>>::empty()) + Seq::<usize>::empty() =~= kept(forced, 0));
    } else {
        lemma_run_inv(syms, forced, min, max, (n - 1) as nat);
        lemma_step_inv(split_run(syms, forced, min, max, (n - 1) as nat), syms, forced, min, max, (n - 1) as nat);
    }
}

proof fn lemma_final_inv(syms: Seq<u32>, forced: Seq<bool>, min: u32, max: u32)
    requires
        syms.len() == forced.len(),
    ensures
        flatten(split_final(syms, forced, min, max).parts) == kept(forced, forced.len()),
        split_final(syms, forced, min, max).merged.len() == split_model(syms, forced, min, max).len(),
        forall|k: int| 0 <= k < split_model(syms, forced, min, max).len()
            ==> (#[trigger] split_model(syms, forced, min, max)[k]).len() > 0,
        forall|k: int| 0 <= k < split_model(syms, forced, min, max).len()
            && !split_final(syms, forced, min, max).merged[k]
            ==> within_budget(syms, #[trigger] split_model(syms, forced, min, max)[k], min, max),
{
    let st = split_run(syms, forced, min, max, syms.len());
    lemma_run_inv(syms, forced, min, max, syms.len());
    lemma_commit_inv(st, syms, min, max);
    assert(st.commit().acc.len() == 0);
    assert(flatten(st.commit().parts) + st.commit().acc =~= flatten(st.commit().parts));
}

/// Splitting loses, duplicates and reorders no sentence: the parts one after
/// the other are the input's sentences in order, without the force-split
/// markers.
pub proof fn lemma_split_keeps_sentences(syms: Seq<u32>, forced: Seq<bool>, min: u32, max: u32)
    requires
        syms.len() == forced.len(),
    ensures
        flatten(split_model(syms, forced, min, max)) == kept(forced, forced.len()),
{
    lemma_final_inv(syms, forced, min, max);
}

/// No part is empty.
pub proof fn lemma_split_parts_nonempty(syms: Seq<u32>, forced: Seq<bool>, min: u32, max: u32)
    requires
        syms.len() == forced.len(),
    ensures
        forall|k: int| 0 <= k < split_model(syms, forced, min, max).len()
            ==> (#[trigger] split_model(syms, forced, min, max)[k]).len() > 0,
{
    lemma_final_inv(syms, forced, min, max);
}

/// Every part that no forced segment was merged into keeps to the budget:
/// at most `max` symbols, unless it is one sentence longer than `max`, or
/// its last sentence came while the others were still short of `min`.
pub proof fn lemma_split_parts_within_budget(syms: Seq<u32>, forced: Seq<bool>, min: u32, max: u32)
    requires
        syms.len() == forced.len(),
    ensures
        split_final(syms, forced, min, max).merged.len() == split_model(syms, forced, min, max).len(),
        forall|k: int| 0 <= k < split_model(syms, forced, min, max).len()
            && !split_final(syms, forced, min, max).merged[k]
            ==> within_budget(syms, #[trigger] split_model(syms, forced, min, max)[k], min, max),
{
    lemma_final_inv(syms, forced, min, max);
}

/// Splitting the same sentences under the same bounds twice gives the same
/// parts.
pub proof fn lemma_split_deterministic(
    syms: Seq<u32>,
    forced: Seq<bool>,
    min: u32,
    max: u32,
    first: Seq<Vec<usize>>,
    second: Seq<Vec<usize>>,
)
    requires
        parts_view(first) == split_model(syms, forced, min, max),
        parts_view(second) == split_model(syms, forced, min, max),
    ensures
        first.len() == second.len(),
        forall|k: int| 0 <= k < first.len() ==> (#[trigger] first[k])@ == second[k]@,
{
    assert(parts_view(first).len() == first.len());
    assert forall|k: int| 0 <= k < first.len() implies (#[trigger] first[k])@ == second[k]@ by {
        assert(parts_view(first)[k] == first[k]@);
        assert(parts_view(second)[k] == second[k]@);
    }
}

} // verus!
