//! The elements of the ray-optics scene as ids and roles: which id a new
//! element gets, which element an id names, what removing, duplicating and
//! dropping a tool from the toolbox do. A scene has one screen and one eye:
//! dropping another moves the existing one.
//!
//! Positions, sizes and the optics of each element stay with the caller; this
//! module keeps the ids, and what the scene's rules decide from them.

use vstd::prelude::*;
use crate::tools::{tool_label, Tool};
use crate::scene_kinds::{obj_kind_label, ObjKind};

verus! {

/// What an element of the scene is, as far as the scene's rules care.
#[derive(Clone, Copy, Debug, PartialEq, Eq, Structural)]
pub enum Role {
    Object,
    Lens,
    Aperture,
    Stop,
    Prism,
    Screen,
    Eye,
}

/// An element of the scene: its id and its role.
#[derive(Clone, Copy, Debug, PartialEq, Eq, Structural)]
pub struct Member {
    pub id: u32,
    pub role: Role,
}

/// What dropping a tool did: moved the existing element with this id, or
/// added a new element with this id.
#[derive(Clone, Copy, Debug, PartialEq, Eq, Structural)]
pub enum Placement {
    Moved(u32),
    Added(u32),
}

/// The ids and roles of the scene's elements, in scene order, and the id the
/// next new element gets.
pub struct Roster {
    pub members: Vec<Member>,
    pub next_id: u32,
}

/// Every id is below `next_id`.
pub open spec fn ids_below(ms: Seq<Member>, next_id: u32) -> bool {
    forall|i: int| 0 <= i < ms.len() ==> #[trigger] ms[i].id < next_id
}

/// No two elements share an id.
pub open spec fn ids_distinct(ms: Seq<Member>) -> bool {
    forall|i: int, j: int| 0 <= i < j < ms.len() ==> #[trigger] ms[i].id != #[trigger] ms[j].id
}

/// The ids of the scene are distinct and below `next_id`, so a new element
/// can take `next_id`.
pub open spec fn roster_wf(ms: Seq<Member>, next_id: u32) -> bool {
    ids_below(ms, next_id) && ids_distinct(ms)
}

/// Position `j` holds the first element with this id.
pub open spec fn first_with_id(ms: Seq<Member>, id: u32, j: int) -> bool {
    &&& 0 <= j < ms.len()
    &&& ms[j].id == id
    &&& forall|k: int| 0 <= k < j ==> #[trigger] ms[k].id != id
}

/// Position `j` holds the first element with this role.
pub open spec fn first_with_role(ms: Seq<Member>, role: Role, j: int) -> bool {
    &&& 0 <= j < ms.len()
    &&& ms[j].role == role
    &&& forall|k: int| 0 <= k < j ==> #[trigger] ms[k].role != role
}

/// Some element has this role.
pub open spec fn has_role(ms: Seq<Member>, role: Role) -> bool {
    exists|j: int| 0 <= j < ms.len() && #[trigger] ms[j].role == role
}

/// The position of the first element with this role (the length when there
/// is none).
pub open spec fn role_index(ms: Seq<Member>, role: Role) -> int
    decreases ms.len(),
{
    if ms.len() == 0 {
        0
    } else if ms[0].role == role {
        0
    } else {
        1 + role_index(ms.drop_first(), role)
    }
}

/// At most one element has this role.
pub open spec fn at_most_one(ms: Seq<Member>, role: Role) -> bool {
    forall|i: int, j: int|
        0 <= i < j < ms.len() ==> !(#[trigger] ms[i].role == role && #[trigger] ms[j].role == role)
}

/// The scene has at most one element of each of these roles.
pub open spec fn single_role(role: Role) -> bool {
    role == Role::Screen || role == Role::Eye
}

/// The role of the element a tool puts on the bench.
pub open spec fn role_for(t: Tool) -> Role {
    match t {
        Tool::Stickman | Tool::Tree | Tool::Sign | Tool::SlitLamp | Tool::Checker => Role::Object,
        Tool::Converging | Tool::Diverging => Role::Lens,
        Tool::Aperture => Role::Aperture,
        Tool::Stop => Role::Stop,
        Tool::Prism => Role::Prism,
        Tool::Screen => Role::Screen,
        Tool::Eye => Role::Eye,
    }
}

/// The elements without those with this id, the others in their order.
pub open spec fn without(ms: Seq<Member>, id: u32) -> Seq<Member>
    decreases ms.len(),
{
    if ms.len() == 0 {
        ms
    } else {
        let rest = without(ms.drop_last(), id);
        if ms.last().id == id {
            rest
        } else {
            rest.push(ms.last())
        }
    }
}

/// A new element with this role: it takes `next_id`.
pub open spec fn add_step(ms: Seq<Member>, next_id: u32, role: Role) -> (Seq<Member>, u32) {
    (ms.push(Member { id: next_id, role }), (next_id + 1) as u32)
}

/// Dropping a tool: a second screen or eye moves the existing one (the first
/// in scene order); any other tool adds a new element.
pub open spec fn place_step(ms: Seq<Member>, next_id: u32, t: Tool) -> (Seq<Member>, u32, Placement) {
    let role = role_for(t);
    if single_role(role) && has_role(ms, role) {
        (ms, next_id, Placement::Moved(ms[role_index(ms, role)].id))
    } else {
        let (ms2, n2) = add_step(ms, next_id, role);
        (ms2, n2, Placement::Added(next_id))
    }
}

/// Dropping this tool adds an element (so it needs a fresh id).
pub open spec fn place_adds(ms: Seq<Member>, t: Tool) -> bool {
    !(single_role(role_for(t)) && has_role(ms, role_for(t)))
}

/// The role of the element a tool puts on the bench.
pub fn role_of(t: Tool) -> (r: Role)
    ensures
        r == role_for(t),
{
    match t {
        Tool::Stickman | Tool::Tree | Tool::Sign | Tool::SlitLamp | Tool::Checker => Role::Object,
        Tool::Converging | Tool::Diverging => Role::Lens,
        Tool::Aperture => Role::Aperture,
        Tool::Stop => Role::Stop,
        Tool::Prism => Role::Prism,
        Tool::Screen => Role::Screen,
        Tool::Eye => Role::Eye,
    }
}

proof fn lemma_first_role_unique(ms: Seq<Member>, role: Role, j: int)
    requires
        first_with_role(ms, role, j),
    ensures
        role_index(ms, role) == j,
        has_role(ms, role),
    decreases ms.len(),
{
    assert(ms[j].role == role);
    if j > 0 {
        assert(ms[0].role != role);
        let d = ms.drop_first();
        assert forall|k: int| 0 <= k < j - 1 implies #[trigger] d[k].role != role by {
            assert(d[k] == ms[k + 1]);
        }
        assert(d[j - 1] == ms[j]);
        lemma_first_role_unique(d, role, j - 1);
    }
}

impl Roster {
    /// An empty scene; the first element gets id 1.
    pub fn new() -> (r: Self)
        ensures
            r.members@ == Seq::<Member>::empty(),
            r.next_id == 1,
    {
        Roster { members: Vec::new(), next_id: 1 }
    }

    /// The position of the element with this id (the first, if several have it).
    pub fn position(&self, id: u32) -> (r: Option<usize>)
        ensures
            match r {
                Some(j) => first_with_id(self.members@, id, j as int),
                None => forall|k: int| 0 <= k < self.members@.len() ==> #[trigger] self.members@[k].id != id,
            },
    {
        let mut i: usize = 0;
        while i < self.members.len()
            invariant
                i <= self.members@.len(),
                forall|k: int| 0 <= k < i ==> #[trigger] self.members@[k].id != id,
            decreases self.members@.len() - i,
        {
            if self.members[i].id == id {
                return Some(i);
            }
            i = i + 1;
        }
        None
    }

    /// The position of the first element with this role.
    pub fn first_of(&self, role: Role) -> (r: Option<usize>)
        ensures
            match r {
                Some(j) => first_with_role(self.members@, role, j as int),
                None => !has_role(self.members@, role),
            },
    {
        let mut i: usize = 0;
        while i < self.members.len()
            invariant
                i <= self.members@.len(),
                forall|k: int| 0 <= k < i ==> #[trigger] self.members@[k].role != role,
            decreases self.members@.len() - i,
        {
            if self.members[i].role == role {
                return Some(i);
            }
            i = i + 1;
        }
        None
    }

    /// Adds an element with this role; returns its id, `next_id`, and counts on.
    pub fn add(&mut self, role: Role) -> (id: u32)
        requires
            old(self).next_id < u32::MAX,
        ensures
            id == old(self).next_id,
            (final(self).members@, final(self).next_id) == add_step(
                old(self).members@,
                old(self).next_id,
                role,
            ),
    {
        let id = self.next_id;
        self.next_id = self.next_id + 1;
        self.members.push(Member { id, role });
        id
    }

    /// Removes every element with this id, keeping the others in order.
    pub fn remove(&mut self, id: u32)
        ensures
            final(self).members@ == without(old(self).members@, id),
            final(self).next_id == old(self).next_id,
    {
        let ghost orig = self.members@;
        let n = self.members.len();
        let mut out: Vec<Member> = Vec::new();
        let mut i: usize = 0;
        while i < n
            invariant
                n == orig.len(),
                self.members@ == orig,
                i <= n,
                out@ == without(orig.subrange(0, i as int), id),
            decreases n - i,
        {
            let m = self.members[i];
            assert(orig.subrange(0, i + 1).drop_last() =~= orig.subrange(0, i as int));
            if m.id != id {
                out.push(m);
            }
            i = i + 1;
        }
        assert(orig.subrange(0, n as int) =~= orig);
        self.members = out;
    }

    /// Adds a copy of the element with this id (the first, if several have
    /// it): same role, new id `next_id`; returns the new id.
    pub fn duplicate(&mut self, id: u32) -> (new_id: u32)
        requires
            old(self).next_id < u32::MAX,
            exists|j: int| 0 <= j < old(self).members@.len() && #[trigger] old(self).members@[j].id == id,
        ensures
            new_id == old(self).next_id,
            exists|j: int|
                first_with_id(old(self).members@, id, j) && (final(self).members@, final(self).next_id)
                    == add_step(old(self).members@, old(self).next_id, #[trigger] old(self).members@[j].role),
    {
        let p = self.position(id);
        match p {
            Some(j) => {
                let role = self.members[j].role;
                self.add(role)
            },
            None => {
                assert(false);
                0
            },
        }
    }

    /// A tool is dropped onto the bench. Only one screen and one eye: if the
    /// scene has one already, it is moved (the caller moves it) and nothing is
    /// added; otherwise a new element is added.
    pub fn place_tool(&mut self, t: Tool) -> (r: Placement)
        requires
            place_adds(old(self).members@, t) ==> old(self).next_id < u32::MAX,
        ensures
            (final(self).members@, final(self).next_id, r) == place_step(
                old(self).members@,
                old(self).next_id,
                t,
            ),
    {
        let role = role_of(t);
        if role == Role::Screen || role == Role::Eye {
            match self.first_of(role) {
                Some(j) => {
                    proof {
                        lemma_first_role_unique(self.members@, role, j as int);
                    }
                    return Placement::Moved(self.members[j].id);
                },
                None => {},
            }
        }
        Placement::Added(self.add(role))
    }
}

/// What `without` keeps: no element with the id, every other element, and
/// nothing that was not there.
pub proof fn lemma_without(ms: Seq<Member>, id: u32)
    ensures
        without(ms, id).len() <= ms.len(),
        forall|k: int|
            0 <= k < without(ms, id).len() ==> (#[trigger] without(ms, id)[k]).id != id && ms.contains(
                without(ms, id)[k],
            ),
        forall|j: int|
            0 <= j < ms.len() && (#[trigger] ms[j]).id != id ==> without(ms, id).contains(ms[j]),
    decreases ms.len(),
{
    if ms.len() > 0 {
        let d = ms.drop_last();
        lemma_without(d, id);
        let w = without(ms, id);
        let wd = without(d, id);
        assert forall|k: int| 0 <= k < w.len() implies (#[trigger] w[k]).id != id && ms.contains(w[k]) by {
            if k < wd.len() {
                assert(w[k] == wd[k]);
                assert(d.contains(wd[k]));
                let j = choose|j: int| 0 <= j < d.len() && d[j] == wd[k];
                assert(ms[j] == wd[k]);
            } else {
                assert(w[k] == ms.last());
                assert(ms[ms.len() - 1] == ms.last());
            }
        }
        assert forall|j: int| 0 <= j < ms.len() && (#[trigger] ms[j]).id != id implies w.contains(ms[j]) by {
            if j < ms.len() - 1 {
                assert(d[j] == ms[j]);
                assert(wd.contains(d[j]));
                let k = choose|k: int| 0 <= k < wd.len() && wd[k] == d[j];
                assert(w[k] == wd[k]);
            } else {
                assert(w[w.len() - 1] == ms[j]);
            }
        }
    }
}

/// Law: a new element (added, dropped from the toolbox or duplicated) takes
/// `next_id`, an id no element has, and the ids stay distinct and below the
/// new `next_id`.
pub proof fn lemma_add_keeps_ids_apart(ms: Seq<Member>, next_id: u32, role: Role)
    requires
        roster_wf(ms, next_id),
        next_id < u32::MAX,
    ensures
        forall|i: int| 0 <= i < ms.len() ==> #[trigger] ms[i].id != next_id,
        roster_wf(add_step(ms, next_id, role).0, add_step(ms, next_id, role).1),
{
    let (ms2, n2) = add_step(ms, next_id, role);
    assert forall|i: int, j: int| 0 <= i < j < ms2.len() implies #[trigger] ms2[i].id != #[trigger] ms2[j].id by {
        if j < ms.len() {
            assert(ms2[i] == ms[i] && ms2[j] == ms[j]);
        } else {
            assert(ms2[i] == ms[i]);
        }
    }
    assert forall|i: int| 0 <= i < ms2.len() implies #[trigger] ms2[i].id < n2 by {
        if i < ms.len() {
            assert(ms2[i] == ms[i]);
        }
    }
}

/// Law: removing an element keeps the ids distinct and below `next_id`; no
/// element has the removed id afterwards and every other element stays.
pub proof fn lemma_remove_keeps_ids_apart(ms: Seq<Member>, next_id: u32, id: u32)
    requires
        roster_wf(ms, next_id),
    ensures
        roster_wf(without(ms, id), next_id),
        forall|k: int| 0 <= k < without(ms, id).len() ==> (#[trigger] without(ms, id)[k]).id != id,
        forall|j: int| 0 <= j < ms.len() && (#[trigger] ms[j]).id != id ==> without(ms, id).contains(ms[j]),
    decreases ms.len(),
{
    lemma_without(ms, id);
    if ms.len() > 0 {
        let d = ms.drop_last();
        assert(roster_wf(d, next_id)) by {
            assert forall|i: int, j: int| 0 <= i < j < d.len() implies #[trigger] d[i].id != #[trigger] d[j].id by {
                assert(d[i] == ms[i] && d[j] == ms[j]);
            }
            assert forall|i: int| 0 <= i < d.len() implies #[trigger] d[i].id < next_id by {
                assert(d[i] == ms[i]);
            }
        }
        lemma_remove_keeps_ids_apart(d, next_id, id);
        lemma_without(d, id);
        let w = without(ms, id);
        let wd = without(d, id);
        assert forall|a: int, b: int| 0 <= a < b < w.len() implies #[trigger] w[a].id != #[trigger] w[b].id by {
            if b < wd.len() {
                assert(w[a] == wd[a] && w[b] == wd[b]);
            } else {
                assert(w[b] == ms.last());
                assert(w[a] == wd[a]);
                assert(d.contains(wd[a]));
                let j = choose|j: int| 0 <= j < d.len() && d[j] == wd[a];
                assert(ms[j] == d[j]);
                assert(ms[ms.len() - 1] == ms.last());
            }
        }
        assert forall|k: int| 0 <= k < w.len() implies #[trigger] w[k].id < next_id by {
            assert(ms.contains(w[k]));
        }
    }
}

/// Law: dropping tools keeps one screen and one eye at most: if the scene had
/// at most one of each, it still has; a second screen or eye moves the first
/// one and adds nothing. The ids stay distinct and below `next_id`.
pub proof fn lemma_one_screen_one_eye(ms: Seq<Member>, next_id: u32, t: Tool)
    requires
        roster_wf(ms, next_id),
        place_adds(ms, t) ==> next_id < u32::MAX,
        at_most_one(ms, Role::Screen),
        at_most_one(ms, Role::Eye),
    ensures
        at_most_one(place_step(ms, next_id, t).0, Role::Screen),
        at_most_one(place_step(ms, next_id, t).0, Role::Eye),
        roster_wf(place_step(ms, next_id, t).0, place_step(ms, next_id, t).1),
        single_role(role_for(t)) && has_role(ms, role_for(t)) ==> place_step(ms, next_id, t).0 == ms
            && place_step(ms, next_id, t).2 == Placement::Moved(ms[role_index(ms, role_for(t))].id),
{
    let role = role_for(t);
    if !(single_role(role) && has_role(ms, role)) {
        lemma_add_keeps_ids_apart(ms, next_id, role);
        let ms2 = ms.push(Member { id: next_id, role });
        assert forall|i: int, j: int| 0 <= i < j < ms2.len() implies !(#[trigger] ms2[i].role == Role::Screen
            && #[trigger] ms2[j].role == Role::Screen) by {
            if j < ms.len() {
                assert(ms2[i] == ms[i] && ms2[j] == ms[j]);
            } else if role == Role::Screen {
                assert(ms2[i] == ms[i]);
                assert(!has_role(ms, Role::Screen));
            }
        }
        assert forall|i: int, j: int| 0 <= i < j < ms2.len() implies !(#[trigger] ms2[i].role == Role::Eye
            && #[trigger] ms2[j].role == Role::Eye) by {
            if j < ms.len() {
                assert(ms2[i] == ms[i] && ms2[j] == ms[j]);
            } else if role == Role::Eye {
                assert(ms2[i] == ms[i]);
                assert(!has_role(ms, Role::Eye));
            }
        }
    }
}

/// Law: the role of each tool. A tool puts an object on the bench exactly
/// when it is named after a kind of object; only the screen tool gives a
/// screen and only the eye tool an eye; the two lens tools give lenses.
/// So dropping any tool but the screen or the eye adds a new element.
pub proof fn lemma_tool_roles(t: Tool, ms: Seq<Member>, next_id: u32)
    ensures
        role_for(t) == Role::Object <==> exists|k: ObjKind| tool_label(t) == #[trigger] obj_kind_label(k),
        role_for(t) == Role::Object <==> (t == Tool::Stickman || t == Tool::Tree || t == Tool::Sign
            || t == Tool::SlitLamp || t == Tool::Checker),
        role_for(t) == Role::Screen <==> t == Tool::Screen,
        role_for(t) == Role::Eye <==> t == Tool::Eye,
        role_for(t) == Role::Lens <==> (t == Tool::Converging || t == Tool::Diverging),
        role_for(t) == Role::Aperture <==> t == Tool::Aperture,
        role_for(t) == Role::Stop <==> t == Tool::Stop,
        role_for(t) == Role::Prism <==> t == Tool::Prism,
        t != Tool::Screen && t != Tool::Eye ==> place_step(ms, next_id, t).2 == Placement::Added(next_id)
            && place_step(ms, next_id, t).0 == ms.push(Member { id: next_id, role: role_for(t) }),
{
    reveal_strlit("Stickman");
    reveal_strlit("Tree");
    reveal_strlit("F-sign");
    reveal_strlit("Slit lamp");
    reveal_strlit("Checkerboard");
    reveal_strlit("Converging lens");
    reveal_strlit("Diverging lens");
    reveal_strlit("Aperture");
    reveal_strlit("Central stop");
    reveal_strlit("Prism");
    reveal_strlit("Screen");
    reveal_strlit("Eye");
    match t {
        Tool::Stickman => assert(tool_label(t) == obj_kind_label(ObjKind::Stickman)),
        Tool::Tree => assert(tool_label(t) == obj_kind_label(ObjKind::Tree)),
        Tool::Sign => assert(tool_label(t) == obj_kind_label(ObjKind::Sign)),
        Tool::SlitLamp => assert(tool_label(t) == obj_kind_label(ObjKind::SlitLamp)),
        Tool::Checker => assert(tool_label(t) == obj_kind_label(ObjKind::Checker)),
        _ => {
            assert forall|k: ObjKind| tool_label(t) != #[trigger] obj_kind_label(k) by {
                let a = tool_label(t);
                let b = obj_kind_label(k);
                if a.len() == b.len() {
                    assert(a[0] != b[0] || a[1] != b[1]);
                }
            }
        },
    }
}

} // verus!
