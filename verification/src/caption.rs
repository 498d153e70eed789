use vstd::prelude::*;
use crate::text::{chars_of, string_of, trim, trim_chars};

verus! {

broadcast use vstd::string::group_string_axioms;

/// The caption in a decoded caption-model output: the text after a leading
/// `<CAPTION>` task token (where there is one), without surrounding whitespace.
pub open spec fn caption_of(decoded: Seq<char>) -> Seq<char> {
    if decoded.len() >= "<CAPTION>"@.len() && decoded.take("<CAPTION>"@.len() as int) == "<CAPTION>"@ {
        trim(decoded.skip("<CAPTION>"@.len() as int))
    } else {
        trim(decoded)
    }
}

fn starts_with(d: &Vec<char>, p: &Vec<char>) -> (b: bool)
    ensures
        b == (d@.len() >= p@.len() && d@.take(p@.len() as int) == p@),
{
    if d.len() < p.len() {
        return false;
    }
    let mut i: usize = 0;
    while i < p.len()
        invariant
            d.len() >= p.len(),
            i <= p.len(),
            forall|j: int| 0 <= j < i ==> d@[j] == p@[j],
        decreases p.len() - i,
    {
        if d[i] != p[i] {
            assert(d@.take(p@.len() as int)[i as int] != p@[i as int]);
            return false;
        }
        i = i + 1;
    }
    assert(d@.take(p@.len() as int) =~= p@);
    true
}

/// The caption in a decoded caption-model output (see `caption_of`).
pub fn caption_text(decoded: &str) -> (c: String)
    ensures
        c@ == caption_of(decoded@),
{
    let d = chars_of(decoded);
    let p = chars_of("<CAPTION>");
    if starts_with(&d, &p) {
        let mut rest: Vec<char> = Vec::new();
        let mut k: usize = p.len();
        while k < d.len()
            invariant
                p.len() <= k <= d.len(),
                rest@ == d@.subrange(p.len() as int, k as int),
            decreases d.len() - k,
        {
            rest.push(d[k]);
            assert(d@.subrange(p.len() as int, k + 1) =~= d@.subrange(p.len() as int, k as int).push(d@[k as int]));
            k = k + 1;
        }
        assert(rest@ =~= d@.skip(p@.len() as int));
        string_of(&trim_chars(&rest))
    } else {
        string_of(&trim_chars(&d))
    }
}

} // verus!
