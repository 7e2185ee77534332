use loan_wallet::handlers::common::{back_to_menu_button, currency_keyboard, main_menu_markup, parse_currency};
use loan_wallet::handlers::contacts::{block_button, invite_link};
use loan_wallet::handlers::debts::debtor_button;
use loan_wallet::handlers::rooms::{member_button, taken_text};
use loan_wallet::models::contact::Contact;
use loan_wallet::handlers::start::ru_people;
use loan_wallet::handlers::{
    callback_ack, callback_route, from_person, message_action, parse_callback, parse_command, ButtonHint, CallbackAction,
    CallbackRoute, Command, MessageAction,
};
use loan_wallet::models::session::SessionState;
use loan_wallet::models::money::Currency;
use loan_wallet::telegram::types::{InlineKeyboardButton, KeyboardButton, ReplyMarkup, TgUser};

#[test]
fn reads_callback_data() {
    assert!(matches!(parse_callback("noop"), CallbackAction::Noop));
    assert!(matches!(parse_callback("menu:debts"), CallbackAction::MenuDebts));
    match parse_callback("room:settle_force:r1") {
        CallbackAction::RoomSettleForce(id) => assert_eq!(id, "r1"),
        other => panic!("{other:?}"),
    }
    match parse_callback("debt:cur:USD") {
        CallbackAction::DebtCurrency(c) => assert_eq!(c, "USD"),
        other => panic!("{other:?}"),
    }
    assert!(matches!(parse_callback("menu:nope"), CallbackAction::Unknown));
    assert!(matches!(parse_callback("contact:open:a:b"), CallbackAction::Unknown));
    assert!(matches!(parse_callback(""), CallbackAction::Unknown));
}

#[test]
fn reads_commands() {
    assert!(matches!(parse_command("  /help "), Some(Command::Help)));
    assert!(matches!(parse_command("/start"), Some(Command::Start(None))));
    match parse_command("/start  abc123 ") {
        Some(Command::Start(Some(t))) => assert_eq!(t, "abc123"),
        other => panic!("{other:?}"),
    }
    assert!(matches!(parse_command("/menu"), Some(Command::Menu)));
    assert!(matches!(parse_command("/cancel"), Some(Command::Cancel)));
    assert!(parse_command("hello").is_none());
    assert!(parse_command("/helpme").is_none());
}

#[test]
fn menus_and_keyboards() {
    match main_menu_markup() {
        ReplyMarkup::InlineKeyboard(k) => {
            assert_eq!(k.inline_keyboard.len(), 2);
            assert_eq!(k.inline_keyboard[1][0].callback_data.as_deref(), Some("menu:debts"));
        }
        _ => panic!("inline keyboard expected"),
    }
    assert_eq!(back_to_menu_button().callback_data.as_deref(), Some("menu:main"));
    let k = currency_keyboard("room:cur");
    assert_eq!(k.inline_keyboard[0][2].callback_data.as_deref(), Some("room:cur:USD"));
    assert_eq!(parse_currency("eur"), Some(Currency::Eur));
    let b = InlineKeyboardButton::link("x", "https://e");
    assert_eq!(b.url.as_deref(), Some("https://e"));
    assert_eq!(KeyboardButton::request_contact("p").request_contact, Some(true));
    assert_eq!(KeyboardButton::text("p").request_contact, None);
}

#[test]
fn russian_plural_and_links() {
    assert_eq!(ru_people(1), "человека");
    assert_eq!(ru_people(21), "человека");
    assert_eq!(ru_people(11), "человек");
    assert_eq!(ru_people(5), "человек");
    assert_eq!(invite_link("my_bot", "abc"), "https://t.me/my_bot?start=abc");
}

#[test]
fn messages_go_where_the_dialogue_waits() {
    let share = SessionState::AwaitingContactShare { display_name: "Брат".to_string() };
    match message_action(true, None, share.clone()) {
        MessageAction::SaveSharedContact(n) => assert_eq!(n, "Брат"),
        other => panic!("{other:?}"),
    }
    assert!(matches!(message_action(true, Some(Command::Help), SessionState::Idle), MessageAction::ShareOwnContact));
    assert!(matches!(message_action(false, Some(Command::Cancel), share.clone()), MessageAction::Cancel));
    assert!(matches!(
        message_action(false, None, share),
        MessageAction::PressButton(ButtonHint::ShareContact)
    ));
    assert!(matches!(message_action(false, None, SessionState::Idle), MessageAction::MainMenu));
    let price = SessionState::AwaitingItemPrice { room_id: "r".to_string(), item_name: "Хлеб".to_string() };
    match message_action(false, None, price) {
        MessageAction::ItemPrice(r, n) => assert_eq!((r.as_str(), n.as_str()), ("r", "Хлеб")),
        other => panic!("{other:?}"),
    }
    assert!(matches!(
        message_action(false, None, SessionState::ManagingRoom { room_id: "r".to_string() }),
        MessageAction::MainMenu
    ));
}

#[test]
fn step_buttons_count_only_in_their_step() {
    let naming = SessionState::AwaitingRoomCurrency { name: "Магнум".to_string() };
    match callback_route(parse_callback("room:cur:USD"), naming) {
        CallbackRoute::RoomCurrency(name, code) => assert_eq!((name.as_str(), code.as_str()), ("Магнум", "USD")),
        other => panic!("{other:?}"),
    }
    assert!(matches!(callback_route(parse_callback("room:cur:USD"), SessionState::Idle), CallbackRoute::Ignore));
    let managing = SessionState::ManagingRoom { room_id: "r1".to_string() };
    let route = callback_route(parse_callback("room:addm:c9"), managing);
    assert_eq!(callback_ack(&route), Some("Добавлено"));
    match route {
        CallbackRoute::AddRoomMember(r, c) => assert_eq!((r.as_str(), c.as_str()), ("r1", "c9")),
        other => panic!("{other:?}"),
    }
    let del = callback_route(parse_callback("contact:del:c1"), SessionState::Idle);
    assert_eq!(callback_ack(&del), Some("Удалено"));
    assert_eq!(callback_ack(&callback_route(parse_callback("menu:main"), SessionState::Idle)), None);
}

#[test]
fn screen_buttons_and_lines() {
    let mut c = Contact::new("me".to_string(), "Брат".to_string(), "903363639".to_string(), &uuid::Uuid::now_v7(), 0);
    c.id = "c1".to_string();
    let b = member_button(&c, false);
    assert_eq!((b.text.as_str(), b.callback_data.as_deref()), ("➕ Брат", Some("room:addm:c1")));
    let b = member_button(&c, true);
    assert_eq!((b.text.as_str(), b.callback_data.as_deref()), ("🚫 Брат (заблокировал вас)", Some("noop")));
    let b = debtor_button(&c, &"u7".to_string(), false);
    assert_eq!((b.text.as_str(), b.callback_data.as_deref()), ("👤 Брат", Some("debt:pickdebtor:u7")));
    let b = debtor_button(&c, &"u7".to_string(), true);
    assert_eq!(b.callback_data.as_deref(), Some("noop"));
    let b = block_button(&c, true);
    assert_eq!((b.text.as_str(), b.callback_data.as_deref()), ("🔓 Разблокировать", Some("contact:unblock:c1")));
    let b = block_button(&c, false);
    assert_eq!((b.text.as_str(), b.callback_data.as_deref()), ("🚫 Заблокировать", Some("contact:block:c1")));
    let names = |xs: &[&str]| xs.iter().map(|s| s.to_string()).collect::<Vec<String>>();
    assert_eq!(taken_text(&names(&[])), "—");
    assert_eq!(taken_text(&names(&["Аня"])), "Аня");
    assert_eq!(taken_text(&names(&["a", "b", "c"])), "a, b, c");
    assert_eq!(taken_text(&names(&["a", "b", "c", "d", "e"])), "a, b, c +2");
    let person = TgUser { id: 1, is_bot: false, first_name: "A".into(), last_name: None, username: None, language_code: None };
    assert!(from_person(&Some(person)));
    let bot = TgUser { id: 2, is_bot: true, first_name: "B".into(), last_name: None, username: None, language_code: None };
    assert!(!from_person(&Some(bot)));
    assert!(!from_person(&None));
}
