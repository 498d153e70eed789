use vstd::prelude::*;
use crate::text::{chars_of, lines, lines_of};

verus! {

/// The symbol taken at the step before `t` (the blank, 0, before the first).
pub open spec fn previous_symbol(best: Seq<usize>, t: int) -> usize {
    if t == 0 { 0 } else { best[t - 1] }
}

/// Step `t` emits its symbol: not the blank, not a repeat of the previous
/// step's symbol, and in the dictionary.
pub open spec fn emits(best: Seq<usize>, dict_len: usize, t: int) -> bool {
    best[t] != 0 && best[t] != previous_symbol(best, t) && best[t] < dict_len
}

/// The steps among the first `n` that emit, in order.
pub open spec fn emitting_steps(best: Seq<usize>, dict_len: usize, n: int) -> Seq<usize>
    decreases n,
{
    if n <= 0 {
        Seq::empty()
    } else {
        let rest = emitting_steps(best, dict_len, n - 1);
        if emits(best, dict_len, n - 1) {
            rest.push((n - 1) as usize)
        } else {
            rest
        }
    }
}

/// Greedy CTC decoding: given the most likely symbol at each step (0 is the
/// blank), the steps whose symbol is emitted, in order. A symbol is emitted
/// when it is not the blank, differs from the previous step's symbol, and
/// lies inside a dictionary of `dict_len` entries.
pub fn ctc_collapse(best: &Vec<usize>, dict_len: usize) -> (steps: Vec<usize>)
    ensures
        steps@ == emitting_steps(best@, dict_len, best@.len() as int),
{
    let mut steps: Vec<usize> = Vec::new();
    let mut prev: usize = 0;
    let mut t: usize = 0;
    while t < best.len()
        invariant
            t <= best.len(),
            prev == previous_symbol(best@, t as int),
            steps@ == emitting_steps(best@, dict_len, t as int),
        decreases best.len() - t,
    {
        let cur = best[t];
        if cur != 0 && cur != prev && cur < dict_len {
            steps.push(t);
        }
        prev = cur;
        t = t + 1;
    }
    steps
}

/// The first characters of the non-empty lines `ls`, in order.
pub open spec fn first_chars(ls: Seq<Seq<char>>) -> Seq<char>
    decreases ls.len(),
{
    if ls.len() == 0 {
        Seq::empty()
    } else {
        let r = first_chars(ls.drop_last());
        if ls.last().len() > 0 { r.push(ls.last()[0]) } else { r }
    }
}

/// A recognition dictionary from its file's text: entry 0 is the blank
/// (a space), then the first character of each non-empty line, in order.
pub fn ocr_dictionary(content: &str) -> (dict: Vec<char>)
    ensures
        dict@ == seq![' '] + first_chars(lines(content@)),
{
    let c = chars_of(content);
    let ls = lines_of(&c);
    let ghost lv = lines(content@);
    let mut dict: Vec<char> = Vec::new();
    dict.push(' ');
    let mut i: usize = 0;
    while i < ls.len()
        invariant
            ls@.len() == lv.len(),
            forall|k: int| 0 <= k < ls@.len() ==> (#[trigger] ls@[k])@ == lv[k],
            i <= ls.len(),
            dict@ == seq![' '] + first_chars(lv.take(i as int)),
        decreases ls.len() - i,
    {
        let ghost t = lv.take(i + 1);
        assert(t.drop_last() =~= lv.take(i as int));
        assert(t.last() == ls@[i as int]@);
        let line = &ls[i];
        if line.len() > 0 {
            dict.push(line[0]);
            assert(dict@ =~= seq![' '] + first_chars(t));
        }
        i = i + 1;
    }
    assert(lv.take(ls.len() as int) =~= lv);
    dict
}

} // verus!
