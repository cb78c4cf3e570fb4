use vstd::prelude::*;

use crate::cca3::CCA3;

verus! {

/// The texts of `codes` separated by commas.
pub open spec fn joined_codes(codes: Seq<Seq<char>>) -> Seq<char>
    decreases codes.len(),
{
    if codes.len() == 0 {
        Seq::empty()
    } else if codes.len() == 1 {
        codes[0]
    } else {
        joined_codes(codes.drop_last()) + ","@ + codes.last()
    }
}

/// The letters of each code of `borders`.
pub open spec fn code_texts(borders: Seq<CCA3>) -> Seq<Seq<char>> {
    borders.map_values(|c: CCA3| c.view())
}

/// The codes of `borders` separated by commas, as a neighbour lookup takes them.
pub fn neighbour_codes(borders: &[CCA3]) -> (r: String)
    ensures
        r@ == joined_codes(code_texts(borders@)),
{
    let mut out = String::new();
    let mut i: usize = 0;
    while i < borders.len()
        invariant
            i <= borders@.len(),
            out@ == joined_codes(code_texts(borders@.subrange(0, i as int))),
        decreases borders@.len() - i,
    {
        proof {
            assert(code_texts(borders@.subrange(0, i + 1)).drop_last() =~= code_texts(
                borders@.subrange(0, i as int),
            ));
        }
        if i > 0 {
            out.append(",");
        }
        out.append(borders[i].as_str());
        proof {
            if i == 0 {
                assert(out@ =~= code_texts(borders@.subrange(0, 1))[0]);
            }
        }
        i = i + 1;
    }
    proof {
        assert(borders@.subrange(0, i as int) =~= borders@);
    }
    out
}

/// The lookup text for a country's neighbours: `None` when it has no
/// borders, so that nothing needs to be looked up.
pub fn neighbour_query(borders: &Option<Vec<CCA3>>) -> (r: Option<String>)
    ensures
        r is None <==> (borders is None || borders->0@.len() == 0),
        r matches Some(s) ==> s@ == joined_codes(code_texts(borders->0@)),
{
    match borders {
        Some(b) => {
            if b.len() == 0 {
                None
            } else {
                Some(neighbour_codes(b.as_slice()))
            }
        },
        None => None,
    }
}

} // verus!
