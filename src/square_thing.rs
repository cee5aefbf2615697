//! Cutting a rectangle into squares, largest first.

use vstd::prelude::*;

verus! {

broadcast use vstd::std_specs::vec::group_vec_axioms, vstd::seq::group_seq_axioms;

/// The sides of the squares cut from a `long` by `short` rectangle
/// (`long >= short`): the largest square first, then those of what remains;
/// a strip one unit wide becomes unit squares, and a square has no cut at all.
pub open spec fn squares(long: int, short: int) -> Option<Seq<int>>
    decreases long + short,
{
    if long <= 0 || short <= 0 || long == short {
        None
    } else if short == 1 {
        Some(Seq::new(long as nat, |i: int| 1int))
    } else {
        let rest_long = if long - short > short { long - short } else { short };
        let rest_short = if long - short > short { short } else { long - short };
        match squares(rest_long, rest_short) {
            Some(rest) => Some(seq![short] + rest),
            None => Some(seq![short]),
        }
    }
}

/// The squares cut from a `lng` by `wdth` rectangle, largest first; `None`
/// when the rectangle is a square already.
pub fn sq_in_rect(lng: i32, wdth: i32) -> (r: Option<Vec<i32>>)
    requires
        lng == wdth || (lng >= 1 && wdth >= 1),
    ensures
        r matches Some(v) ==> squares(
            if lng > wdth { lng as int } else { wdth as int },
            if lng < wdth { lng as int } else { wdth as int },
        ) == Some(v@.map_values(|x: i32| x as int)),
        r is None <==> lng == wdth,
    decreases lng + wdth,
{
    let long = if lng > wdth { lng } else { wdth };
    let short = if lng < wdth { lng } else { wdth };
    if long == short {
        return None;
    }
    if short == 1 {
        let mut ones: Vec<i32> = Vec::new();
        while ones.len() < long as usize
            invariant
                ones@.len() <= long,
                forall|i: int| 0 <= i < ones@.len() ==> ones@[i] == 1,
            decreases long - ones@.len(),
        {
            ones.push(1);
        }
        assert(ones@.map_values(|x: i32| x as int) =~= Seq::new(long as nat, |i: int| 1int));
        return Some(ones);
    }
    let mut result: Vec<i32> = Vec::new();
    result.push(short);
    match sq_in_rect(long - short, short) {
        Some(mut smaller) => {
            let ghost rest = smaller@;
            result.append(&mut smaller);
            assert(result@.map_values(|x: i32| x as int) =~= seq![short as int] + rest.map_values(
                |x: i32| x as int,
            ));
        },
        None => {
            assert(result@.map_values(|x: i32| x as int) =~= seq![short as int]);
        },
    }
    Some(result)
}

} // verus!
