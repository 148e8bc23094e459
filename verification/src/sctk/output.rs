//! Choosing compositor outputs for a surface.
//!
//! The compositor's outputs are given in its order, each with the
//! information it reported (if any); outputs are named by their position.

use vstd::prelude::*;
use vstd::string::StringSliceAdditionalSpecFns;
use vstd::utf8::encode_utf8;

use super::options::{OutputSelector, OutputSet};

verus! {

/// What a compositor reported about one output.
#[derive(Clone, Debug)]
pub struct OutputInfo {
    pub name: Option<String>,
    pub model: String,
    pub make: String,
    pub scale_factor: i32,
}

/// Why no output could be picked.
#[derive(Clone, Copy, Debug, PartialEq, Eq, Structural)]
pub enum OutputPickError {
    NoOutputs,
    NoMatch,
}

/// Where a surface goes: the compositor's active output, or the output at
/// this position.
#[derive(Clone, Copy, Debug, PartialEq, Eq, Structural)]
pub enum PickedOutput {
    Active,
    Output(usize),
}

/// The UTF-8 bytes of `prefix` begin the UTF-8 bytes of `s`.
pub open spec fn has_prefix(s: Seq<char>, prefix: Seq<char>) -> bool {
    let a = encode_utf8(s);
    let b = encode_utf8(prefix);
    b.len() <= a.len() && a.subrange(0, b.len() as int) == b
}

/// `s` starts with `prefix` (compared byte by byte).
pub fn starts_with(s: &str, prefix: &str) -> (r: bool)
    ensures
        r == has_prefix(s@, prefix@),
{
    let a = s.as_bytes();
    let b = prefix.as_bytes();
    if b.len() > a.len() {
        return false;
    }
    let mut i: usize = 0;
    while i < b.len()
        invariant
            a@ == encode_utf8(s@),
            b@ == encode_utf8(prefix@),
            b@.len() <= a@.len(),
            i <= b@.len(),
            a@.subrange(0, i as int) == b@.subrange(0, i as int),
        decreases b@.len() - i,
    {
        if a[i] != b[i] {
            assert(a@.subrange(0, b@.len() as int)[i as int] != b@[i as int]);
            return false;
        }
        assert(a@.subrange(0, i + 1) == a@.subrange(0, i as int).push(a@[i as int]));
        assert(b@.subrange(0, i + 1) == b@.subrange(0, i as int).push(b@[i as int]));
        i = i + 1;
    }
    assert(b@.subrange(0, b@.len() as int) == b@);
    true
}

/// The name an output reported, or the empty string.
pub open spec fn name_of(info: OutputInfo) -> Seq<char> {
    match info.name {
        Some(n) => n@,
        None => Seq::empty(),
    }
}

/// The output reported information whose name, model or make starts with
/// `prefix`.
pub open spec fn matches_prefix(o: Option<OutputInfo>, prefix: Seq<char>) -> bool {
    match o {
        Some(info) => has_prefix(name_of(info), prefix) || has_prefix(info.model@, prefix) || has_prefix(info.make@, prefix),
        None => false,
    }
}

/// The output reported a laptop-panel name (eDP or LVDS).
pub open spec fn is_internal(o: Option<OutputInfo>) -> bool {
    match o {
        Some(info) => has_prefix(name_of(info), "eDP"@) || has_prefix(name_of(info), "LVDS"@),
        None => false,
    }
}

/// The scale factor an output reported, 1 when it reported nothing.
pub open spec fn scale_of(o: Option<OutputInfo>) -> i32 {
    match o {
        Some(info) => info.scale_factor,
        None => 1,
    }
}

/// First position among the first `k` outputs that match `prefix`.
pub open spec fn first_prefix_match(outs: Seq<Option<OutputInfo>>, prefix: Seq<char>, k: int) -> Option<int>
    decreases k,
{
    if k <= 0 {
        None
    } else {
        match first_prefix_match(outs, prefix, k - 1) {
            Some(i) => Some(i),
            None => if matches_prefix(outs[k - 1], prefix) {
                Some(k - 1)
            } else {
                None
            },
        }
    }
}

/// First position among the first `k` outputs with a laptop-panel name.
pub open spec fn first_internal(outs: Seq<Option<OutputInfo>>, k: int) -> Option<int>
    decreases k,
{
    if k <= 0 {
        None
    } else {
        match first_internal(outs, k - 1) {
            Some(i) => Some(i),
            None => if is_internal(outs[k - 1]) {
                Some(k - 1)
            } else {
                None
            },
        }
    }
}

/// Last position among the first `k` outputs with the highest scale.
pub open spec fn last_highest_scale(outs: Seq<Option<OutputInfo>>, k: int) -> Option<int>
    decreases k,
{
    if k <= 0 {
        None
    } else {
        match last_highest_scale(outs, k - 1) {
            Some(i) => if scale_of(outs[k - 1]) >= scale_of(outs[i]) {
                Some(k - 1)
            } else {
                Some(i)
            },
            None => Some(k - 1),
        }
    }
}

/// The output `sel` picks among `outs`, if any.
pub open spec fn selected(outs: Seq<Option<OutputInfo>>, sel: OutputSelector) -> Option<int> {
    let n = outs.len() as int;
    match sel {
        OutputSelector::First => if n > 0 { Some(0) } else { None },
        OutputSelector::Index(i) => if i < n { Some(i as int) } else { None },
        OutputSelector::NamePrefix(p) => first_prefix_match(outs, p@, n),
        OutputSelector::InternalPrefer => match first_internal(outs, n) {
            Some(i) => Some(i),
            None => if n > 0 { Some(0) } else { None },
        },
        OutputSelector::HighestScale => last_highest_scale(outs, n),
    }
}

/// The outcome of picking with `sel`: the position picked, or why none.
pub open spec fn pick_result(outs: Seq<Option<OutputInfo>>, sel: OutputSelector) -> Result<usize, OutputPickError> {
    match selected(outs, sel) {
        Some(i) => Ok(i as usize),
        None => if outs.len() == 0 {
            Err(OutputPickError::NoOutputs)
        } else {
            Err(OutputPickError::NoMatch)
        },
    }
}

fn output_matches_prefix(o: &Option<OutputInfo>, prefix: &str) -> (r: bool)
    ensures
        r == matches_prefix(*o, prefix@),
{
    match o {
        Some(info) => {
            let name: &str = match &info.name {
                Some(n) => n.as_str(),
                None => "",
            };
            proof {
                reveal_strlit("");
            }
            starts_with(name, prefix) || starts_with(info.model.as_str(), prefix) || starts_with(
                info.make.as_str(),
                prefix,
            )
        },
        None => false,
    }
}

fn output_is_internal(o: &Option<OutputInfo>) -> (r: bool)
    ensures
        r == is_internal(*o),
{
    match o {
        Some(info) => {
            let name: &str = match &info.name {
                Some(n) => n.as_str(),
                None => "",
            };
            proof {
                reveal_strlit("");
            }
            starts_with(name, "eDP") || starts_with(name, "LVDS")
        },
        None => false,
    }
}

fn output_scale(o: &Option<OutputInfo>) -> (r: i32)
    ensures
        r == scale_of(*o),
{
    match o {
        Some(info) => info.scale_factor,
        None => 1,
    }
}

/// Pick one output with `sel`. Fails with `NoOutputs` when there are none
/// and `NoMatch` when the selector matches none of them.
pub fn pick_output(outputs: &Vec<Option<OutputInfo>>, sel: &OutputSelector) -> (r: Result<usize, OutputPickError>)
    ensures
        r == pick_result(outputs@, *sel),
{
    let n = outputs.len();
    let found: Option<usize> = match sel {
        OutputSelector::First => if n > 0 {
            Some(0)
        } else {
            None
        },
        OutputSelector::Index(i) => if *i < n {
            Some(*i)
        } else {
            None
        },
        OutputSelector::NamePrefix(prefix) => {
            let mut k: usize = 0;
            let mut hit: Option<usize> = None;
            while k < n
                invariant_except_break
                    hit.is_none(),
                invariant
                    n == outputs@.len(),
                    k <= n,
                    first_prefix_match(outputs@, prefix@, k as int).is_none(),
                ensures
                    match hit {
                        Some(i) => first_prefix_match(outputs@, prefix@, n as int) == Some(i as int),
                        None => first_prefix_match(outputs@, prefix@, n as int).is_none(),
                    },
                decreases n - k,
            {
                let o = &outputs[k];
                let ps = prefix.as_str();
                let is_hit = output_matches_prefix(o, ps);
                assert(*o == outputs@[k as int]);
                assert(ps@ == prefix@);
                assert(is_hit == matches_prefix(outputs@[k as int], prefix@));
                                if is_hit {
                    assert(first_prefix_match(outputs@, prefix@, k + 1) == Some(k as int));
                    proof { lemma_first_prefix_match_stays(outputs@, prefix@, k as int, n as int); }
                    hit = Some(k);
                    break;
                }
                k = k + 1;
            }
            hit
        },
        OutputSelector::InternalPrefer => {
            let mut k: usize = 0;
            let mut hit: Option<usize> = None;
            while k < n
                invariant_except_break
                    hit.is_none(),
                invariant
                    n == outputs@.len(),
                    k <= n,
                    first_internal(outputs@, k as int).is_none(),
                ensures
                    match hit {
                        Some(i) => first_internal(outputs@, n as int) == Some(i as int),
                        None => first_internal(outputs@, n as int).is_none(),
                    },
                decreases n - k,
            {
                let is_hit = output_is_internal(&outputs[k]);
                assert(is_hit == is_internal(outputs@[k as int]));
                if is_hit {
                    assert(first_internal(outputs@, k + 1) == Some(k as int));
                    proof { lemma_first_internal_stays(outputs@, k as int, n as int); }
                    hit = Some(k);
                    break;
                }
                k = k + 1;
            }
            match hit {
                Some(i) => Some(i),
                None => if n > 0 {
                    Some(0)
                } else {
                    None
                },
            }
        },
        OutputSelector::HighestScale => {
            let mut best: Option<usize> = None;
            let mut k: usize = 0;
            while k < n
                invariant
                    n == outputs@.len(),
                    k <= n,
                    match last_highest_scale(outputs@, k as int) {
                        Some(i) => best == Some(i as usize) && 0 <= i < k,
                        None => best.is_none() && k == 0,
                    },
                decreases n - k,
            {
                best = match best {
                    Some(i) => if output_scale(&outputs[k]) >= output_scale(&outputs[i]) {
                        Some(k)
                    } else {
                        Some(i)
                    },
                    None => Some(k),
                };
                k = k + 1;
            }
            best
        },
    };
    match found {
        Some(i) => Ok(i),
        None => if n == 0 {
            Err(OutputPickError::NoOutputs)
        } else {
            Err(OutputPickError::NoMatch)
        },
    }
}

/// Once a position matches, longer prefixes of the output list keep it.
pub proof fn lemma_first_prefix_match_stays(outs: Seq<Option<OutputInfo>>, prefix: Seq<char>, i: int, k: int)
    requires
        0 <= i < k,
        first_prefix_match(outs, prefix, i + 1) == Some(i),
    ensures
        first_prefix_match(outs, prefix, k) == Some(i),
    decreases k,
{
    if k > i + 1 {
        lemma_first_prefix_match_stays(outs, prefix, i, k - 1);
    }
}

/// Once a position has a panel name, longer prefixes of the list keep it.
pub proof fn lemma_first_internal_stays(outs: Seq<Option<OutputInfo>>, i: int, k: int)
    requires
        0 <= i < k,
        first_internal(outs, i + 1) == Some(i),
    ensures
        first_internal(outs, k) == Some(i),
    decreases k,
{
    if k > i + 1 {
        lemma_first_internal_stays(outs, i, k - 1);
    }
}

/// The outputs `set` puts a surface on; the active output when nothing
/// else is picked.
pub open spec fn picked_outputs(outs: Seq<Option<OutputInfo>>, set: OutputSet) -> Seq<PickedOutput> {
    match set {
        OutputSet::Active => seq![PickedOutput::Active],
        OutputSet::All => if outs.len() == 0 {
            seq![PickedOutput::Active]
        } else {
            Seq::new(outs.len(), |i: int| PickedOutput::Output(i as usize))
        },
        OutputSet::One(sel) => match pick_result(outs, sel) {
            Ok(o) => seq![PickedOutput::Output(o)],
            Err(_) => seq![PickedOutput::Active],
        },
        OutputSet::List(list) => {
            let found = list_picks(outs, list@, list@.len() as int);
            if found.len() == 0 {
                seq![PickedOutput::Active]
            } else {
                found
            }
        },
    }
}

/// The outputs the first `k` selectors of `list` pick, in list order,
/// skipping selectors that pick none.
pub open spec fn list_picks(outs: Seq<Option<OutputInfo>>, list: Seq<OutputSelector>, k: int) -> Seq<PickedOutput>
    decreases k,
{
    if k <= 0 {
        Seq::empty()
    } else {
        let before = list_picks(outs, list, k - 1);
        match pick_result(outs, list[k - 1]) {
            Ok(o) => before.push(PickedOutput::Output(o)),
            Err(_) => before,
        }
    }
}

/// Pick the outputs for `set`.
pub fn pick_outputs(outputs: &Vec<Option<OutputInfo>>, set: &OutputSet) -> (r: Vec<PickedOutput>)
    ensures
        r@ == picked_outputs(outputs@, *set),
{
    match set {
        OutputSet::Active => {
            let mut v = Vec::new();
            v.push(PickedOutput::Active);
            assert(v@ == seq![PickedOutput::Active]);
            v
        },
        OutputSet::All => {
            let n = outputs.len();
            let mut outs: Vec<PickedOutput> = Vec::new();
            let mut k: usize = 0;
            while k < n
                invariant
                    n == outputs@.len(),
                    k <= n,
                    outs@ == Seq::new(k as nat, |i: int| PickedOutput::Output(i as usize)),
                decreases n - k,
            {
                outs.push(PickedOutput::Output(k));
                k = k + 1;
            }
            if outs.len() == 0 {
                let mut v = Vec::new();
                v.push(PickedOutput::Active);
                assert(v@ == seq![PickedOutput::Active]);
                v
            } else {
                outs
            }
        },
        OutputSet::One(sel) => {
            let mut v = Vec::new();
            match pick_output(outputs, sel) {
                Ok(o) => v.push(PickedOutput::Output(o)),
                Err(_) => v.push(PickedOutput::Active),
            }
            assert(v@ =~= picked_outputs(outputs@, *set));
            v
        },
        OutputSet::List(list) => {
            let mut outs: Vec<PickedOutput> = Vec::new();
            let mut k: usize = 0;
            while k < list.len()
                invariant
                    k <= list@.len(),
                    outs@ == list_picks(outputs@, list@, k as int),
                decreases list@.len() - k,
            {
                match pick_output(outputs, &list[k]) {
                    Ok(o) => outs.push(PickedOutput::Output(o)),
                    Err(_) => {},
                }
                k = k + 1;
            }
            if outs.len() == 0 {
                let mut v = Vec::new();
                v.push(PickedOutput::Active);
                assert(v@ == seq![PickedOutput::Active]);
                v
            } else {
                outs
            }
        },
    }
}

} // verus!
