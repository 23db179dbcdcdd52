//! Reading traced ray paths: what a ray ends on, what happens to it on the
//! way, and the facts the bench derives from that sequence of events.

use vstd::prelude::*;

verus! {

/// What a ray hits.
#[derive(Clone, Copy, Debug, PartialEq, Eq, Structural)]
pub enum Surf {
    Sky,
    Ground,
    /// element id of the object that was hit
    Object(u32),
    /// lens or aperture hole
    Lens(usize),
    /// lens holder or aperture plate
    Rim(usize),
    Prism(usize),
    ScreenFront,
    ScreenBack,
}

/// What happens to a ray on its way.
#[derive(Clone, Copy, Debug, PartialEq, Eq, Structural)]
pub enum Event {
    Lens(usize),
    /// passing through an aperture
    Stop(usize),
    /// entering, reflecting inside or leaving a prism
    Glass(usize),
}

/// The direction of the ray changes at this event (a lens or a prism face).
pub open spec fn refracts(e: Event) -> bool {
    e is Lens || e is Glass
}

/// The bit an event sets in the mask of lenses and apertures passed (none
/// for prisms and for lens numbers of 32 and more).
pub open spec fn train_bit(e: Event) -> u32 {
    match e {
        Event::Lens(i) => if i < 32 {
            1u32 << i
        } else {
            0
        },
        Event::Stop(i) => if i < 32 {
            1u32 << i
        } else {
            0
        },
        Event::Glass(_) => 0,
    }
}

/// The mask of the lenses and apertures (numbered below 32) that the events pass.
pub open spec fn train_mask(events: Seq<Event>) -> u32
    decreases events.len(),
{
    if events.len() == 0 {
        0
    } else {
        train_mask(events.drop_last()) | train_bit(events.last())
    }
}

/// The index of the last event where the direction changed (lens or prism).
pub fn last_refraction(events: &Vec<Event>) -> (r: Option<usize>)
    ensures
        match r {
            Some(k) => k < events@.len() && refracts(events@[k as int]) && forall|m: int|
                k < m < events@.len() ==> !refracts(#[trigger] events@[m]),
            None => forall|m: int| 0 <= m < events@.len() ==> !refracts(#[trigger] events@[m]),
        },
{
    let mut k = events.len();
    while k > 0
        invariant
            k <= events@.len(),
            forall|m: int| k <= m < events@.len() ==> !refracts(#[trigger] events@[m]),
        decreases k,
    {
        k = k - 1;
        match events[k] {
            Event::Lens(_) | Event::Glass(_) => {
                return Some(k);
            },
            Event::Stop(_) => {},
        }
    }
    None
}

/// The index of the first lens on the path.
pub fn first_lens(events: &Vec<Event>) -> (r: Option<usize>)
    ensures
        match r {
            Some(k) => k < events@.len() && events@[k as int] is Lens && forall|m: int|
                0 <= m < k ==> !(#[trigger] events@[m] is Lens),
            None => forall|m: int| 0 <= m < events@.len() ==> !(#[trigger] events@[m] is Lens),
        },
{
    let mut k: usize = 0;
    while k < events.len()
        invariant
            k <= events@.len(),
            forall|m: int| 0 <= m < k ==> !(#[trigger] events@[m] is Lens),
        decreases events@.len() - k,
    {
        if let Event::Lens(_) = events[k] {
            return Some(k);
        }
        k = k + 1;
    }
    None
}

/// The mask of the lenses and apertures (numbered below 32) that a path passes:
/// bit i is set when lens or aperture i is on the path.
pub fn lens_train(events: &Vec<Event>) -> (m: u32)
    ensures
        m == train_mask(events@),
{
    let mut m: u32 = 0;
    let mut k: usize = 0;
    while k < events.len()
        invariant
            k <= events@.len(),
            m == train_mask(events@.subrange(0, k as int)),
        decreases events@.len() - k,
    {
        let bit: u32 = match events[k] {
            Event::Lens(i) | Event::Stop(i) => if i < 32 {
                1u32 << i
            } else {
                0
            },
            Event::Glass(_) => 0,
        };
        assert(events@.subrange(0, k + 1).drop_last() =~= events@.subrange(0, k as int));
        m = m | bit;
        k = k + 1;
    }
    assert(events@.subrange(0, events@.len() as int) =~= events@);
    m
}

/// A pinhole camera: the path passes an aperture but no lens.
pub open spec fn pinhole_path(events: Seq<Event>) -> bool {
    &&& forall|m: int| 0 <= m < events.len() ==> !(#[trigger] events[m] is Lens)
    &&& exists|m: int| 0 <= m < events.len() && #[trigger] events[m] is Stop
}

/// Whether the screen looks through an aperture without any lens (a pinhole camera).
pub fn is_pinhole(events: &Vec<Event>) -> (b: bool)
    ensures
        b == pinhole_path(events@),
{
    let mut any_lens = false;
    let mut any_stop = false;
    let mut k: usize = 0;
    while k < events.len()
        invariant
            k <= events@.len(),
            any_lens <==> exists|m: int| 0 <= m < k && #[trigger] events@[m] is Lens,
            any_stop <==> exists|m: int| 0 <= m < k && #[trigger] events@[m] is Stop,
        decreases events@.len() - k,
    {
        match events[k] {
            Event::Lens(_) => {
                any_lens = true;
            },
            Event::Stop(_) => {
                any_stop = true;
            },
            Event::Glass(_) => {},
        }
        k = k + 1;
    }
    !any_lens && any_stop
}

/// Bit `i` of `m` is set.
pub open spec fn has_bit(m: u32, i: u32) -> bool {
    (m >> i) & 1u32 == 1u32
}

proof fn lemma_bit_or(a: u32, b: u32, i: u32)
    requires
        i < 32,
    ensures
        has_bit(a | b, i) <==> (has_bit(a, i) || has_bit(b, i)),
{
    assert(((a | b) >> i) & 1u32 == 1u32 <==> ((a >> i) & 1u32 == 1u32 || (b >> i) & 1u32 == 1u32))
        by (bit_vector)
        requires
            i < 32,
    ;
}

proof fn lemma_bit_single(j: u32, i: u32)
    requires
        i < 32,
        j < 32,
    ensures
        has_bit(1u32 << j, i) <==> i == j,
        !has_bit(0u32, i),
{
    assert(((1u32 << j) >> i) & 1u32 == 1u32 <==> i == j) by (bit_vector)
        requires
            i < 32,
            j < 32,
    ;
    assert((0u32 >> i) & 1u32 == 0u32) by (bit_vector);
}

/// Event `e` is lens or aperture number `i`.
pub open spec fn passes(e: Event, i: int) -> bool {
    e == Event::Lens(i as usize) || e == Event::Stop(i as usize)
}

/// Law: bit i (below 32) of the lens mask of a path is set exactly when the
/// path passes lens or aperture number i.
pub proof fn lemma_train_mask_bits(events: Seq<Event>, i: u32)
    requires
        i < 32,
    ensures
        has_bit(train_mask(events), i) <==> exists|k: int|
            0 <= k < events.len() && passes(#[trigger] events[k], i as int),
    decreases events.len(),
{
    if events.len() == 0 {
        lemma_bit_single(0, i);
    } else {
        let init = events.drop_last();
        let e = events.last();
        lemma_train_mask_bits(init, i);
        lemma_bit_or(train_mask(init), train_bit(e), i);
        match e {
            Event::Lens(j) => {
                if j < 32 {
                    lemma_bit_single(j as u32, i);
                } else {
                    lemma_bit_single(0, i);
                }
            },
            Event::Stop(j) => {
                if j < 32 {
                    lemma_bit_single(j as u32, i);
                } else {
                    lemma_bit_single(0, i);
                }
            },
            Event::Glass(_) => {
                lemma_bit_single(0, i);
            },
        }
        if has_bit(train_mask(events), i) {
            if has_bit(train_mask(init), i) {
                let k = choose|k: int| 0 <= k < init.len() && passes(#[trigger] init[k], i as int);
                assert(events[k] == init[k]);
            } else {
                assert(passes(events[events.len() - 1], i as int));
            }
        } else {
            assert forall|k: int| 0 <= k < events.len() implies !passes(#[trigger] events[k], i as int) by {
                if k < events.len() - 1 {
                    assert(events[k] == init[k]);
                }
            }
        }
    }
}

} // verus!
