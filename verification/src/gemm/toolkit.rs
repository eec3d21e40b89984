//! Where a toolkit keeps the libraries of a target.

use vstd::prelude::*;

verus! {

/// The bytes of `linux` stand at a place.
pub open spec fn linux_at(text: Seq<u8>, place: int) -> bool {
    &&& 0 <= place
    &&& place + 5 <= text.len()
    &&& text[place] == 108
    &&& text[place + 1] == 105
    &&& text[place + 2] == 110
    &&& text[place + 3] == 117
    &&& text[place + 4] == 120
}

/// The first hyphen of a target ends its architecture.
pub open spec fn is_architecture_end(target: Seq<u8>, end: int) -> bool {
    &&& 0 <= end < target.len()
    &&& target[end] == 45
    &&& forall|i: int| 0 <= i < end ==> target[i] != 45
}

/// A target whose libraries lie under its architecture's own directory: what
/// follows the architecture names linux.
pub open spec fn is_linux_target(target: Seq<u8>) -> bool {
    exists|end: int, place: int|
        #![trigger is_architecture_end(target, end), linux_at(target, place)]
        is_architecture_end(target, end) && end < place && linux_at(target, place)
}

/// Length of the architecture of a linux target: `x86_64` of
/// `x86_64-unknown-linux-gnu`, whose libraries lie under `x86_64-linux`.
pub fn linux_architecture(target: &[u8]) -> (length: Option<usize>)
    ensures
        match length {
            Some(end) => is_architecture_end(target@, end as int) && is_linux_target(target@),
            None => !is_linux_target(target@),
        },
{
    let mut end: usize = 0;
    while end < target.len() && target[end] != 45
        invariant
            end <= target@.len(),
            forall|i: int| 0 <= i < end ==> target@[i] != 45,
        decreases target@.len() - end,
    {
        end = end + 1;
    }
    if end == target.len() {
        return None;
    }
    assert(is_architecture_end(target@, end as int));
    let mut place: usize = end + 1;
    while place < target.len() && target.len() - place >= 5
        invariant
            end < place <= target@.len(),
            is_architecture_end(target@, end as int),
            forall|i: int| end < i < place ==> !linux_at(target@, i),
        decreases target@.len() - place,
    {
        if target[place] == 108 && target[place + 1] == 105 && target[place + 2] == 110
            && target[place + 3] == 117 && target[place + 4] == 120 {
            assert(linux_at(target@, place as int));
            return Some(end);
        }
        place = place + 1;
    }
    proof {
        assert forall|e: int, i: int|
            #![trigger is_architecture_end(target@, e), linux_at(target@, i)]
            is_architecture_end(target@, e) && e < i implies !linux_at(target@, i) by {
            assert(e == end);
        }
    }
    None
}

/// Law: a target is a linux one exactly where the bytes of `linux` stand somewhere
/// after its first hyphen.
pub proof fn law_linux_stands_after_the_first_hyphen(target: Seq<u8>, end: int)
    requires
        0 <= end < target.len(),
        target[end] as char == '-',
        forall|i: int| 0 <= i < end ==> #[trigger] target[i] as char != '-',
    ensures
        is_architecture_end(target, end),
        is_linux_target(target) <==> exists|place: int|
            end < place && place + 5 <= target.len() && #[trigger] target.subrange(place, place + 5)
                == seq!['l' as u8, 'i' as u8, 'n' as u8, 'u' as u8, 'x' as u8],
{
    let linux = seq!['l' as u8, 'i' as u8, 'n' as u8, 'u' as u8, 'x' as u8];
    assert(is_architecture_end(target, end));
    if exists|place: int|
        end < place && place + 5 <= target.len() && #[trigger] target.subrange(place, place + 5)
            == linux {
        let place = choose|place: int|
            end < place && place + 5 <= target.len() && #[trigger] target.subrange(place, place + 5)
                == linux;
        let part = target.subrange(place, place + 5);
        assert(part[0] == linux[0] && part[1] == linux[1] && part[2] == linux[2] && part[3]
            == linux[3] && part[4] == linux[4]);
        assert(linux_at(target, place));
    }
    if is_linux_target(target) {
        let (other, at) = choose|other: int, at: int|
            #![trigger is_architecture_end(target, other), linux_at(target, at)]
            is_architecture_end(target, other) && other < at && linux_at(target, at);
        assert(other == end) by {
            assert(target[other] == 45 && target[end] == 45);
        }
        assert(target.subrange(at, at + 5) =~= linux);
    }
}

/// Law: a target without a hyphen has no architecture, and is no linux one.
pub proof fn law_no_hyphen_is_no_linux_target(target: Seq<u8>)
    requires
        forall|i: int| 0 <= i < target.len() ==> #[trigger] target[i] as char != '-',
    ensures
        !is_linux_target(target),
{
    assert forall|end: int, place: int|
        #![trigger is_architecture_end(target, end), linux_at(target, place)]
        !(is_architecture_end(target, end) && end < place && linux_at(target, place)) by {
        if is_architecture_end(target, end) {
            assert(target[end] as char == '-');
        }
    }
}

} // verus!
