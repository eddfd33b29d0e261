//! The text of a performance summary, and the two numbers that a resource
//! locator carries.
//!
//! The ratings themselves come from outside: this module reads the
//! locator and lays the text out.

use crate::text::{before, chars_of, find_in};
use vstd::prelude::*;

verus! {

/// The part of `s` after its last `c`: all of `s` where it holds none.
pub open spec fn after_last(s: Seq<char>, c: char) -> Seq<char>
    decreases s.len(),
{
    if s.len() == 0 {
        Seq::empty()
    } else if s.last() == c {
        Seq::empty()
    } else {
        after_last(s.drop_last(), c).push(s.last())
    }
}

/// The number of the set in a locator: what stands between the last `/`
/// before the first `#` and that `#`.
pub open spec fn set_id_of(locator: Seq<char>) -> Seq<char> {
    after_last(before(locator, '#'), '/')
}

/// The number of the map in a locator: what follows the last `/` behind
/// the last `#`.
pub open spec fn map_id_of(locator: Seq<char>) -> Seq<char> {
    after_last(after_last(locator, '#'), '/')
}

/// Start of the part of `from..to` that follows the last `c` in it:
/// `from` where it holds none.
fn rfind_in(v: &Vec<char>, from: usize, to: usize, c: char) -> (i: usize)
    requires
        from <= to <= v.len(),
    ensures
        from <= i <= to,
        v@.subrange(i as int, to as int) == after_last(v@.subrange(from as int, to as int), c),
{
    let mut i: usize = to;
    proof {
        assert(after_last(v@.subrange(from as int, to as int), c) =~= after_last(
            v@.subrange(from as int, to as int),
            c,
        ) + v@.subrange(to as int, to as int));
    }
    while i > from && v[i - 1] != c
        invariant
            from <= i <= to <= v.len(),
            after_last(v@.subrange(from as int, to as int), c) == after_last(
                v@.subrange(from as int, i as int),
                c,
            ) + v@.subrange(i as int, to as int),
        decreases i - from,
    {
        proof {
            let part = v@.subrange(from as int, i as int);
            assert(part.drop_last() =~= v@.subrange(from as int, i - 1));
            assert(after_last(part.drop_last(), c).push(part.last()) + v@.subrange(
                i as int,
                to as int,
            ) =~= after_last(part.drop_last(), c) + v@.subrange(i - 1, to as int));
        }
        i -= 1;
    }
    proof {
        let part = v@.subrange(from as int, i as int);
        assert(after_last(part, c) =~= Seq::<char>::empty());
        assert(after_last(part, c) + v@.subrange(i as int, to as int) =~= v@.subrange(
            i as int,
            to as int,
        ));
    }
    i
}

/// Reads the number of the set and the number of the map out of a
/// locator, in this order. Neither need be a number: a locator without
/// `#` or `/` gives the text that stands in their place.
pub fn locator_ids(locator: &str) -> (ids: (String, String))
    ensures
        ids.0@ == set_id_of(locator@),
        ids.1@ == map_id_of(locator@),
{
    let v = chars_of(locator);
    let n: usize = v.len();
    let hash = find_in(&v, 0, n, '#');
    let set_from = rfind_in(&v, 0, hash, '/');
    let tail = rfind_in(&v, 0, n, '#');
    let map_from = rfind_in(&v, tail, n, '/');
    proof {
        assert(v@.subrange(0, n as int) =~= locator@);
        assert(before(locator@, '#') =~= v@.subrange(0, hash as int));
    }
    (
        locator.substring_char(set_from, hash).to_owned(),
        locator.substring_char(map_from, n).to_owned(),
    )
}

/// The digit for `d`, a number below ten.
pub open spec fn digit(d: nat) -> char
    recommends
        d < 10,
{
    "0123456789"@[d as int]
}

/// `n` in decimal digits, without leading zeros.
pub open spec fn decimal(n: nat) -> Seq<char>
    decreases n,
{
    if n < 10 {
        seq![digit(n)]
    } else {
        decimal(n / 10).push(digit(n % 10))
    }
}

/// Writes `n` in decimal digits.
pub fn decimal_text(n: u32) -> (text: String)
    ensures
        text@ == decimal(n as nat),
    decreases n,
{
    proof {
        reveal_strlit("0123456789");
    }
    let d: usize = (n % 10) as usize;
    let last = "0123456789".substring_char(d, d + 1);
    proof {
        assert(last@ =~= seq![digit((n % 10) as nat)]);
    }
    if n < 10 {
        last.to_owned()
    } else {
        let mut text = decimal_text(n / 10);
        text.append(last);
        proof {
            assert(text@ =~= decimal((n / 10) as nat).push(digit((n % 10) as nat)));
        }
        text
    }
}

/// The model of a rating.
pub struct RatingView {
    pub accuracy: nat,
    pub points: Seq<char>,
}

/// The points that a play of one accuracy, in percent, is worth. The
/// points come as the text they are to be shown as.
#[derive(Debug)]
pub struct Rating {
    pub accuracy: u32,
    pub points: String,
}

impl View for Rating {
    type V = RatingView;

    open spec fn view(&self) -> RatingView {
        RatingView { accuracy: self.accuracy as nat, points: self.points@ }
    }
}

/// The models of a list of ratings, in its order.
pub open spec fn rating_views(ratings: Seq<Rating>) -> Seq<RatingView> {
    ratings.map_values(|r: Rating| r@)
}

/// One rating as the summary shows it, separator included.
pub open spec fn rating_line(rating: RatingView) -> Seq<char> {
    decimal(rating.accuracy) + "%: "@ + rating.points + "pp | "@
}

/// The ratings as the summary shows them, one after the other.
pub open spec fn rating_lines(ratings: Seq<RatingView>) -> Seq<char>
    decreases ratings.len(),
{
    if ratings.len() == 0 {
        Seq::empty()
    } else {
        rating_lines(ratings.drop_last()) + rating_line(ratings.last())
    }
}

/// The link to the map, as the summary opens.
pub open spec fn summary_head(set_id: Seq<char>, map_id: Seq<char>) -> Seq<char> {
    "[https://osu.ppy.sh/beatmapsets/"@ + set_id + "#/"@ + map_id + " Map] "@
}

/// The summary: the link to the map, then the ratings; the space that
/// would end it is left out.
pub open spec fn summary(set_id: Seq<char>, map_id: Seq<char>, ratings: Seq<RatingView>) -> Seq<
    char,
> {
    (summary_head(set_id, map_id) + rating_lines(ratings)).drop_last()
}

/// The accuracies that a summary gives ratings for, in percent.
pub fn accuracies() -> (list: Vec<u32>)
    ensures
        list@ == seq![95u32, 97u32, 98u32, 99u32, 100u32],
{
    let mut list: Vec<u32> = Vec::new();
    list.push(95);
    list.push(97);
    list.push(98);
    list.push(99);
    list.push(100);
    proof {
        assert(list@ =~= seq![95u32, 97u32, 98u32, 99u32, 100u32]);
    }
    list
}

/// Lays out the summary of the map `map_id` of the set `set_id`.
pub fn summary_text(set_id: &str, map_id: &str, ratings: &Vec<Rating>) -> (text: String)
    ensures
        text@ == summary(set_id@, map_id@, rating_views(ratings@)),
{
    let mut full = "[https://osu.ppy.sh/beatmapsets/".to_owned();
    full.append(set_id);
    full.append("#/");
    full.append(map_id);
    full.append(" Map] ");
    let ghost head = summary_head(set_id@, map_id@);
    let ghost all = rating_views(ratings@);
    proof {
        assert(all.take(0) =~= Seq::<RatingView>::empty());
        assert(full@ =~= head + rating_lines(all.take(0)));
    }
    let mut i: usize = 0;
    while i < ratings.len()
        invariant
            0 <= i <= ratings.len(),
            all == rating_views(ratings@),
            full@ == head + rating_lines(all.take(i as int)),
        decreases ratings.len() - i,
    {
        let ghost so_far = full@;
        full.append(decimal_text(ratings[i].accuracy).as_str());
        full.append("%: ");
        full.append(ratings[i].points.as_str());
        full.append("pp | ");
        proof {
            assert(all.take(i + 1).drop_last() =~= all.take(i as int));
            assert(all.take(i + 1).last() == ratings@[i as int]@);
            assert(full@ =~= so_far + rating_line(ratings@[i as int]@));
            assert(full@ =~= head + rating_lines(all.take(i + 1)));
        }
        i += 1;
    }
    proof {
        reveal_strlit(" Map] ");
        assert(all.take(i as int) =~= all);
        assert(full@.len() >= head.len() >= 1);
        assert(full@.subrange(0, full@.len() - 1) =~= full@.drop_last());
    }
    let n: usize = full.as_str().unicode_len();
    full.as_str().substring_char(0, n - 1).to_owned()
}

} // verus!
