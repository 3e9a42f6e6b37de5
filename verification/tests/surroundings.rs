use game::inventory::Inventory;
use game::mouse::MouseWorldPosition;
use game::share::{share_message, share_url};
use game::zone::Pos;

#[test]
fn share_url_percent_encodes_the_message() {
    let url = share_url("a b#");
    assert_eq!(url, "https://twitter.com/intent/tweet?text=a%20b%23");
}

#[test]
fn share_url_matches_direct_encoding() {
    let msg = share_message();
    let url = share_url(msg);
    let expected = format!(
        "https://twitter.com/intent/tweet?text={}",
        urlencoding::encode(msg)
    );
    assert_eq!(url, expected);
}

#[test]
fn mouse_position_keeps_last_reading() {
    let mut m = MouseWorldPosition(Pos::new(1, 2));
    m.update(Some(Pos::new(5, 6)));
    assert_eq!(m.0, Pos::new(5, 6));
    // the cursor left the window: no reading, the old position stays
    m.update(None);
    assert_eq!(m.0, Pos::new(5, 6));
}

#[test]
fn inventory_front_is_the_first_item() {
    let empty = Inventory::new();
    assert_eq!(empty.front(), None);
    let inv = Inventory { items: vec![5, 9] };
    assert_eq!(inv.front(), Some(5));
}
