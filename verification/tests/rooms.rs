use loan_wallet::handlers::rooms::{assign_unselected, room_view, settlement_owes, unselected_items, RoomAdminAction};
use loan_wallet::models::room::{Room, RoomItem, RoomStatus};
use loan_wallet::models::money::Currency;
use loan_wallet::services::splitter::{room_totals, user_totals_fit};

const NOW: i64 = 1_781_496_000;

fn item(price: i64, selected: &[&str]) -> RoomItem {
    let mut it = RoomItem::new("r".into(), "x".into(), price, &uuid::Uuid::now_v7(), NOW);
    it.selected_by = selected.iter().map(|s| s.to_string()).collect();
    it
}

#[test]
fn totals_and_owes() {
    let items = vec![item(900, &["a", "b", "c"]), item(100, &["c", "a"]), item(50, &[])];
    let mut t = room_totals(&items);
    t.sort();
    assert_eq!(t, vec![("a".to_string(), 350), ("b".to_string(), 300), ("c".to_string(), 350)]);
    let mut o = settlement_owes(&items, &"a".to_string());
    o.sort();
    assert_eq!(o, vec![("b".to_string(), 300), ("c".to_string(), 350)]);
}

#[test]
fn toggling_and_unselected() {
    let mut it = item(10, &["a"]);
    it.toggle_selection(&"b".to_string());
    assert_eq!(it.selected_by, vec!["a", "b"]);
    it.toggle_selection(&"a".to_string());
    assert_eq!(it.selected_by, vec!["b"]);
    let mut items = vec![item(1, &[]), item(2, &["x"]), item(3, &[])];
    assert_eq!(unselected_items(&items), vec![0, 2]);
    assert_eq!(assign_unselected(&mut items, &"boss".to_string()), vec![0, 2]);
    assert_eq!(items[0].selected_by, vec!["boss"]);
    assert_eq!(items[1].selected_by, vec!["x"]);
}

#[test]
fn room_screen_decisions() {
    let mut room = Room::new("Магнум".into(), "boss".into(), Currency::Uzs, &uuid::Uuid::now_v7(), NOW);
    assert!(room.add_member("guest".into()));
    assert!(!room.add_member("guest".into()));
    let items = vec![item(1, &["guest"]), item(2, &[])];
    let v = room_view(&room, &items, &"guest".to_string());
    assert!(v.is_member);
    assert_eq!(v.item_marks, vec![true, false]);
    assert!(v.admin_actions.is_empty());
    let v = room_view(&room, &items, &"boss".to_string());
    assert_eq!(v.admin_actions, vec![RoomAdminAction::AddItem, RoomAdminAction::Members, RoomAdminAction::Settle]);
    room.status = RoomStatus::Settled;
    let v = room_view(&room, &items, &"boss".to_string());
    assert!(v.item_marks.is_empty());
    assert_eq!(v.admin_actions, vec![RoomAdminAction::Archive]);
    assert!(!room_view(&room, &items, &"stranger".to_string()).is_member);
}

#[test]
fn toggling_twice_gives_the_item_back() {
    let mut it = item(10, &["a", "c"]);
    it.toggle_selection(&"b".to_string());
    it.toggle_selection(&"b".to_string());
    assert_eq!(it.selected_by, vec!["a", "c"]);
}

#[test]
fn totals_that_overflow_are_caught() {
    assert!(user_totals_fit(&vec![item(900, &["a", "b"]), item(100, &["a"])]));
    assert!(!user_totals_fit(&vec![item(i64::MAX, &["a"]), item(1, &["a"])]));
    assert!(user_totals_fit(&vec![item(i64::MAX, &["a"]), item(1, &["b"])]));
}

#[test]
fn totals_add_up_to_the_prices_taken() {
    let items = vec![item(1000, &["b", "a", "c"]), item(7, &["c", "a"]), item(50, &[]), item(-5, &["a"])];
    let totals = room_totals(&items);
    assert_eq!(totals.iter().map(|t| t.1).sum::<i64>(), 1007);
    let owes = settlement_owes(&items, &"a".to_string());
    let a_total = totals.iter().find(|t| t.0 == "a").unwrap().1;
    assert_eq!(owes.iter().map(|t| t.1).sum::<i64>(), 1007 - a_total);
    assert_eq!(a_total, 334 + 4);
}
