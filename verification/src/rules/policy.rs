//! The policy that two of the rules read: pairs of signals that must never
//! be active together, and memory areas with their access.

use crate::text::{
    chars_of, contains, contains_str, find, find_in, has_prefix, is_digit, is_digit_char, is_letter,
    is_letter_char, parse_i64, parse_number, slice_of, starts_with, to_upper, trim, trimmed, upper,
};
use vstd::prelude::*;

verus! {

/// What is configured. A list that is absent counts as empty.
#[derive(Debug, Clone, PartialEq, Eq)]
pub struct Policy {
    pub pairs: Option<Vec<[String; 2]>>,
    pub memory_areas: Option<Vec<MemoryArea>>,
}

/// A memory area: its range of addresses, such as `%MW100-%MW200`, and its
/// access, `ReadOnly` or `ReadWrite`.
#[derive(Debug, Clone, PartialEq, Eq)]
pub struct MemoryArea {
    pub address: String,
    pub access: String,
}

/// The model of a memory area.
pub struct MemoryAreaModel {
    pub address: Seq<char>,
    pub access: Seq<char>,
}

/// The model of a policy: a list that is absent is empty.
pub struct PolicyModel {
    pub pairs: Seq<(Seq<char>, Seq<char>)>,
    pub memory_areas: Seq<MemoryAreaModel>,
}

impl View for MemoryArea {
    type V = MemoryAreaModel;

    open spec fn view(&self) -> MemoryAreaModel {
        MemoryAreaModel { address: self.address@, access: self.access@ }
    }
}

/// The models of a sequence of pairs, one for one.
pub open spec fn pairs_view(p: Seq<[String; 2]>) -> Seq<(Seq<char>, Seq<char>)> {
    Seq::new(p.len(), |i: int| (p[i][0]@, p[i][1]@))
}

/// The models of a sequence of memory areas, one for one.
pub open spec fn areas_view(a: Seq<MemoryArea>) -> Seq<MemoryAreaModel> {
    Seq::new(a.len(), |i: int| a[i]@)
}

impl View for Policy {
    type V = PolicyModel;

    open spec fn view(&self) -> PolicyModel {
        PolicyModel {
            pairs: match self.pairs {
                Some(p) => pairs_view(p@),
                None => Seq::empty(),
            },
            memory_areas: match self.memory_areas {
                Some(a) => areas_view(a@),
                None => Seq::empty(),
            },
        }
    }
}

impl Default for Policy {
    /// The empty policy.
    fn default() -> (p: Self)
        ensures
            p@.pairs.len() == 0,
            p@.memory_areas.len() == 0,
            p.pairs is None,
            p.memory_areas is None,
    {
        Policy { pairs: None, memory_areas: None }
    }
}

/// The decimal digits of a text, in order.
pub open spec fn digits_of(s: Seq<char>) -> Seq<char>
    decreases s.len(),
{
    if s.len() == 0 {
        Seq::empty()
    } else if is_digit(s.last()) {
        digits_of(s.drop_last()).push(s.last())
    } else {
        digits_of(s.drop_last())
    }
}

/// The bounds of a range such as `%MW100-%MW200`: the numbers that the
/// digits on either side of its one hyphen write. A range without a hyphen
/// or with several, or with a side that writes no number of 64 bits, has no
/// bounds.
pub open spec fn bounds_of(address: Seq<char>) -> Option<(i64, i64)> {
    let s = trim(address);
    match find(s, "-"@) {
        Some(k) => if contains(s.skip(k + 1), "-"@) {
            None
        } else {
            match (parse_i64(digits_of(s.take(k))), parse_i64(digits_of(s.skip(k + 1)))) {
                (Some(low), Some(high)) => Some((low, high)),
                _ => None,
            }
        },
        None => None,
    }
}

/// Whether a range is of the area that the tag names: it begins with the
/// tag, whatever the case, and the tag's letters end there.
pub open spec fn tag_matches(address: Seq<char>, tag: Seq<char>) -> bool {
    has_prefix(upper(address), upper(tag)) && !(tag.len() < address.len() && is_letter(
        address[tag.len() as int],
    ))
}

/// Whether a memory area holds the address `number` of the area that `tag`
/// names: the tags match and the number lies within the bounds, both
/// included. An area without bounds holds nothing.
pub open spec fn area_holds(area: MemoryAreaModel, tag: Seq<char>, number: i64) -> bool {
    tag_matches(area.address, tag) && match bounds_of(area.address) {
        Some((low, high)) => low <= number <= high,
        None => false,
    }
}

fn digits_in(s: &Vec<char>) -> (r: Vec<char>)
    ensures
        r@ == digits_of(s@),
{
    let mut r: Vec<char> = Vec::new();
    let mut i: usize = 0;
    while i < s.len()
        invariant
            i <= s.len(),
            r@ == digits_of(s@.take(i as int)),
        decreases s.len() - i,
    {
        assert(s@.take(i as int + 1).drop_last() =~= s@.take(i as int));
        if is_digit_char(s[i]) {
            r.push(s[i]);
        }
        i += 1;
    }
    assert(s@.take(s.len() as int) =~= s@);
    r
}

impl MemoryArea {
    /// The bounds of the area's range.
    pub fn range_bounds(&self) -> (r: Option<(i64, i64)>)
        ensures
            r == bounds_of(self.address@),
    {
        let s = trimmed(&chars_of(self.address.as_str()));
        let hyphen = chars_of("-");
        proof {
            reveal_strlit("-");
        }
        match find_in(&s, &hyphen) {
            Some(k) => {
                let head = slice_of(&s, 0, k);
                let tail = slice_of(&s, k + 1, s.len());
                if contains_str(&tail, "-") {
                    return None;
                }
                match (parse_number(&digits_in(&head)), parse_number(&digits_in(&tail))) {
                    (Some(low), Some(high)) => Some((low, high)),
                    _ => None,
                }
            },
            None => None,
        }
    }

    /// Whether the area holds the address `addr` of the area that `area`
    /// names.
    pub fn applies(&self, area: &str, addr: i64) -> (r: bool)
        ensures
            r == area_holds(self@, area@, addr),
    {
        let address = chars_of(self.address.as_str());
        let tag = chars_of(area);
        if !starts_with(&to_upper(&address), &to_upper(&tag)) {
            return false;
        }
        if tag.len() < address.len() && is_letter_char(address[tag.len()]) {
            return false;
        }
        match self.range_bounds() {
            Some((low, high)) => low <= addr && addr <= high,
            None => false,
        }
    }
}

} // verus!
