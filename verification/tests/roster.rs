use optics_bench::roster::{role_of, Member, Placement, Role, Roster};
use optics_bench::tools::Tool;

fn ids(r: &Roster) -> Vec<u32> {
    r.members.iter().map(|m| m.id).collect()
}

#[test]
fn new_elements_take_consecutive_ids_from_one() {
    let mut r = Roster::new();
    assert_eq!(r.next_id, 1);
    assert_eq!(r.add(Role::Lens), 1);
    assert_eq!(r.add(Role::Object), 2);
    assert_eq!(r.next_id, 3);
    assert_eq!(r.members, vec![Member { id: 1, role: Role::Lens }, Member { id: 2, role: Role::Object }]);
}

#[test]
fn removed_ids_are_not_given_again() {
    let mut r = Roster::new();
    r.add(Role::Lens);
    r.add(Role::Prism);
    r.remove(2);
    assert_eq!(ids(&r), vec![1]);
    assert_eq!(r.add(Role::Stop), 3);
    assert_eq!(ids(&r), vec![1, 3]);
}

#[test]
fn removing_keeps_the_others_in_order() {
    let mut r = Roster::new();
    for _ in 0..4 {
        r.add(Role::Object);
    }
    r.remove(2);
    assert_eq!(ids(&r), vec![1, 3, 4]);
    r.remove(9);
    assert_eq!(ids(&r), vec![1, 3, 4]);
    assert_eq!(r.next_id, 5);
}

#[test]
fn positions_and_roles_are_found() {
    let mut r = Roster::new();
    r.add(Role::Lens);
    r.add(Role::Eye);
    r.add(Role::Lens);
    assert_eq!(r.position(3), Some(2));
    assert_eq!(r.position(7), None);
    assert_eq!(r.first_of(Role::Lens), Some(0));
    assert_eq!(r.first_of(Role::Eye), Some(1));
    assert_eq!(r.first_of(Role::Screen), None);
}

#[test]
fn a_duplicate_gets_a_new_id_and_the_same_role() {
    let mut r = Roster::new();
    r.add(Role::Prism);
    r.add(Role::Lens);
    assert_eq!(r.duplicate(1), 3);
    assert_eq!(r.members[2], Member { id: 3, role: Role::Prism });
    assert_eq!(r.next_id, 4);
}

#[test]
fn one_screen_and_one_eye() {
    let mut r = Roster::new();
    assert_eq!(r.place_tool(Tool::Screen), Placement::Added(1));
    assert_eq!(r.place_tool(Tool::Converging), Placement::Added(2));
    assert_eq!(r.place_tool(Tool::Eye), Placement::Added(3));
    // dropping another screen or eye moves the existing one
    assert_eq!(r.place_tool(Tool::Screen), Placement::Moved(1));
    assert_eq!(r.place_tool(Tool::Eye), Placement::Moved(3));
    assert_eq!(r.members.len(), 3);
    assert_eq!(r.next_id, 4);
    // any other tool adds every time
    assert_eq!(r.place_tool(Tool::Converging), Placement::Added(4));
    r.remove(1);
    assert_eq!(r.place_tool(Tool::Screen), Placement::Added(5));
}

#[test]
fn tools_and_their_roles() {
    assert_eq!(role_of(Tool::Tree), Role::Object);
    assert_eq!(role_of(Tool::Checker), Role::Object);
    assert_eq!(role_of(Tool::Diverging), Role::Lens);
    assert_eq!(role_of(Tool::Aperture), Role::Aperture);
    assert_eq!(role_of(Tool::Stop), Role::Stop);
    assert_eq!(role_of(Tool::Prism), Role::Prism);
    assert_eq!(role_of(Tool::Screen), Role::Screen);
    assert_eq!(role_of(Tool::Eye), Role::Eye);
}
