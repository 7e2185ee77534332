//! Routing of incoming updates: what a command or a button press asks for.
pub mod common;
pub mod contacts;
pub mod debts;
pub mod rooms;
pub mod start;

use crate::models::money::Currency;
use crate::models::session::SessionState;
use crate::telegram::types::TgUser;
use crate::text::{chars_of, has_prefix, split_chars, split_on, string_of, trim_ws, trimmed};
use vstd::prelude::*;

verus! {

/// What a pressed inline button asks for, read from its callback data
/// ("section:action[:id]").
#[derive(Debug, Clone)]
pub enum CallbackAction {
    Noop,
    MenuMain,
    MenuContacts,
    MenuRooms,
    MenuDebts,
    MenuHelp,
    ContactAdd,
    ContactOpen(String),
    ContactDelete(String),
    ContactBlock(String),
    ContactUnblock(String),
    RoomNew,
    RoomCurrency(String),
    RoomOpen(String),
    RoomAddItem(String),
    RoomMembers(String),
    RoomAddMember(String),
    RoomSettle(String),
    RoomSettleForce(String),
    RoomArchive(String),
    ItemToggle(String),
    DebtNew,
    DebtPickDebtor(String),
    DebtCurrency(String),
    DebtOpen(String),
    DebtPay(String),
    DebtInstallments(String),
    DebtForgive(String),
    Unknown,
}

/// The callback data that means `a`, split at ':' (empty for `Unknown`).
pub open spec fn action_parts(a: CallbackAction) -> Seq<Seq<char>> {
    match a {
        CallbackAction::Noop => seq!["noop"@],
        CallbackAction::MenuMain => seq!["menu"@, "main"@],
        CallbackAction::MenuContacts => seq!["menu"@, "contacts"@],
        CallbackAction::MenuRooms => seq!["menu"@, "rooms"@],
        CallbackAction::MenuDebts => seq!["menu"@, "debts"@],
        CallbackAction::MenuHelp => seq!["menu"@, "help"@],
        CallbackAction::ContactAdd => seq!["contact"@, "add"@],
        CallbackAction::ContactOpen(id) => seq!["contact"@, "open"@, id@],
        CallbackAction::ContactDelete(id) => seq!["contact"@, "del"@, id@],
        CallbackAction::ContactBlock(id) => seq!["contact"@, "block"@, id@],
        CallbackAction::ContactUnblock(id) => seq!["contact"@, "unblock"@, id@],
        CallbackAction::RoomNew => seq!["room"@, "new"@],
        CallbackAction::RoomCurrency(c) => seq!["room"@, "cur"@, c@],
        CallbackAction::RoomOpen(id) => seq!["room"@, "open"@, id@],
        CallbackAction::RoomAddItem(id) => seq!["room"@, "add_item"@, id@],
        CallbackAction::RoomMembers(id) => seq!["room"@, "members"@, id@],
        CallbackAction::RoomAddMember(id) => seq!["room"@, "addm"@, id@],
        CallbackAction::RoomSettle(id) => seq!["room"@, "settle"@, id@],
        CallbackAction::RoomSettleForce(id) => seq!["room"@, "settle_force"@, id@],
        CallbackAction::RoomArchive(id) => seq!["room"@, "archive"@, id@],
        CallbackAction::ItemToggle(id) => seq!["item"@, "toggle"@, id@],
        CallbackAction::DebtNew => seq!["debt"@, "new"@],
        CallbackAction::DebtPickDebtor(id) => seq!["debt"@, "pickdebtor"@, id@],
        CallbackAction::DebtCurrency(c) => seq!["debt"@, "cur"@, c@],
        CallbackAction::DebtOpen(id) => seq!["debt"@, "open"@, id@],
        CallbackAction::DebtPay(id) => seq!["debt"@, "pay"@, id@],
        CallbackAction::DebtInstallments(id) => seq!["debt"@, "installments"@, id@],
        CallbackAction::DebtForgive(id) => seq!["debt"@, "forgive"@, id@],
        CallbackAction::Unknown => Seq::empty(),
    }
}

fn is_word(part: &Vec<char>, w: &str) -> (r: bool)
    ensures
        r == (part@ == w@),
{
    let b = chars_of(w);
    crate::text::chars_eq(part.as_slice(), b.as_slice())
}

/// Reads a button's callback data. Known data gives the action it encodes; anything
/// else is `Unknown`.
pub fn parse_callback(data: &str) -> (r: CallbackAction)
    ensures
        !(r is Unknown) ==> action_parts(r) == split_on(data@, ':'),
        r is Unknown ==> forall|a: CallbackAction|
            !(a is Unknown) ==> #[trigger] action_parts(a) != split_on(data@, ':'),
{
    let cs = chars_of(data);
    let p = split_chars(&cs, ':');
    let ghost parts = split_on(data@, ':');
    assert(p@.len() == parts.len());
    if p.len() == 1 {
        assert(p@[0]@ == parts[0]);
        if is_word(&p[0], "noop") {
            assert(parts =~= seq!["noop"@]);
            return CallbackAction::Noop;
        }
        return CallbackAction::Unknown;
    }
    if p.len() == 2 {
        assert(p@[0]@ == parts[0]);
        assert(p@[1]@ == parts[1]);
        let menu = is_word(&p[0], "menu");
        let r = if menu && is_word(&p[1], "main") {
            CallbackAction::MenuMain
        } else if menu && is_word(&p[1], "contacts") {
            CallbackAction::MenuContacts
        } else if menu && is_word(&p[1], "rooms") {
            CallbackAction::MenuRooms
        } else if menu && is_word(&p[1], "debts") {
            CallbackAction::MenuDebts
        } else if menu && is_word(&p[1], "help") {
            CallbackAction::MenuHelp
        } else if is_word(&p[0], "contact") && is_word(&p[1], "add") {
            CallbackAction::ContactAdd
        } else if is_word(&p[0], "room") && is_word(&p[1], "new") {
            CallbackAction::RoomNew
        } else if is_word(&p[0], "debt") && is_word(&p[1], "new") {
            CallbackAction::DebtNew
        } else {
            CallbackAction::Unknown
        };
        assert(!(r is Unknown) ==> action_parts(r) =~= parts);
        return r;
    }
    if p.len() == 3 {
        assert(p@[0]@ == parts[0]);
        assert(p@[1]@ == parts[1]);
        assert(p@[2]@ == parts[2]);
        let id = string_of(&p[2]);
        let contact = is_word(&p[0], "contact");
        let room = is_word(&p[0], "room");
        let debt = is_word(&p[0], "debt");
        let item = is_word(&p[0], "item");
        let r = if contact && is_word(&p[1], "open") {
            CallbackAction::ContactOpen(id)
        } else if contact && is_word(&p[1], "del") {
            CallbackAction::ContactDelete(id)
        } else if contact && is_word(&p[1], "block") {
            CallbackAction::ContactBlock(id)
        } else if contact && is_word(&p[1], "unblock") {
            CallbackAction::ContactUnblock(id)
        } else if room && is_word(&p[1], "cur") {
            CallbackAction::RoomCurrency(id)
        } else if room && is_word(&p[1], "open") {
            CallbackAction::RoomOpen(id)
        } else if room && is_word(&p[1], "add_item") {
            CallbackAction::RoomAddItem(id)
        } else if room && is_word(&p[1], "members") {
            CallbackAction::RoomMembers(id)
        } else if room && is_word(&p[1], "addm") {
            CallbackAction::RoomAddMember(id)
        } else if room && is_word(&p[1], "settle") {
            CallbackAction::RoomSettle(id)
        } else if room && is_word(&p[1], "settle_force") {
            CallbackAction::RoomSettleForce(id)
        } else if room && is_word(&p[1], "archive") {
            CallbackAction::RoomArchive(id)
        } else if item && is_word(&p[1], "toggle") {
            CallbackAction::ItemToggle(id)
        } else if debt && is_word(&p[1], "pickdebtor") {
            CallbackAction::DebtPickDebtor(id)
        } else if debt && is_word(&p[1], "cur") {
            CallbackAction::DebtCurrency(id)
        } else if debt && is_word(&p[1], "open") {
            CallbackAction::DebtOpen(id)
        } else if debt && is_word(&p[1], "pay") {
            CallbackAction::DebtPay(id)
        } else if debt && is_word(&p[1], "installments") {
            CallbackAction::DebtInstallments(id)
        } else if debt && is_word(&p[1], "forgive") {
            CallbackAction::DebtForgive(id)
        } else {
            CallbackAction::Unknown
        };
        assert(!(r is Unknown) ==> action_parts(r) =~= parts);
        return r;
    }
    CallbackAction::Unknown
}

/// A slash command.
#[derive(Debug, Clone)]
pub enum Command {
    /// `/start`, with the deep-link token that follows it, if any.
    Start(Option<String>),
    Help,
    Menu,
    Cancel,
}

/// The command a message text holds, if any: the text trimmed, then "/start" with
/// the trimmed rest as token (none when empty), or exactly "/help", "/menu" or
/// "/cancel".
pub open spec fn command_of(text: Seq<char>) -> Option<(int, Seq<char>)> {
    let t = trim_ws(text);
    if has_prefix(t, "/start"@) {
        Some((0, trim_ws(t.skip(6))))
    } else if t == "/help"@ {
        Some((1, Seq::empty()))
    } else if t == "/menu"@ {
        Some((2, Seq::empty()))
    } else if t == "/cancel"@ {
        Some((3, Seq::empty()))
    } else {
        None
    }
}

/// Whether `c` is the command that `command_of` describes by `spec`.
pub open spec fn command_matches(c: Command, spec: (int, Seq<char>)) -> bool {
    match c {
        Command::Start(tok) => spec.0 == 0 && match tok {
            Some(t) => t@ == spec.1 && spec.1.len() > 0,
            None => spec.1.len() == 0,
        },
        Command::Help => spec.0 == 1,
        Command::Menu => spec.0 == 2,
        Command::Cancel => spec.0 == 3,
    }
}

/// Reads a slash command from a message text.
pub fn parse_command(text: &str) -> (r: Option<Command>)
    ensures
        match command_of(text@) {
            Some(spec) => r matches Some(c) && command_matches(c, spec),
            None => r is None,
        },
{
    let cs = chars_of(text);
    let t = trimmed(cs.as_slice());
    let start = chars_of("/start");
    proof {
        reveal_strlit("/start");
    }
    if t.len() >= 6 && crate::text::chars_eq(&t.as_slice()[0..6], start.as_slice()) {
        assert(t@.take(6) == t@.subrange(0, 6));
        let rest = trimmed(&t.as_slice()[6..t.len()]);
        assert(t@.subrange(6, t@.len() as int) == t@.skip(6));
        if rest.len() == 0 {
            return Some(Command::Start(None));
        }
        return Some(Command::Start(Some(string_of(&rest))));
    }
    proof {
        assert(!has_prefix(t@, "/start"@)) by {
            if has_prefix(t@, "/start"@) {
                assert(t@.take(6) == t@.subrange(0, 6));
            }
        }
    }
    if is_word(&t, "/help") {
        Some(Command::Help)
    } else if is_word(&t, "/menu") {
        Some(Command::Menu)
    } else if is_word(&t, "/cancel") {
        Some(Command::Cancel)
    } else {
        None
    }
}

/// Which button a waiting dialogue asks the user to press.
#[derive(Debug, Clone, Copy, PartialEq, Eq, Structural)]
pub enum ButtonHint {
    /// The reply button that shares a contact.
    ShareContact,
    /// A currency button.
    Currency,
    /// A debtor button.
    Debtor,
}

/// What an incoming message asks the bot to do.
#[derive(Debug, Clone)]
pub enum MessageAction {
    /// Save the shared contact under the name given before.
    SaveSharedContact(String),
    /// The user shares their own phone.
    ShareOwnContact,
    /// `/start`, with its deep-link token.
    Start(Option<String>),
    Help,
    /// `/menu`: leave the dialogue, show the main menu.
    Menu,
    /// `/cancel`: leave the dialogue, say so, show the main menu.
    Cancel,
    /// Show the main menu (no dialogue waits for text).
    MainMenu,
    /// The text names a new contact.
    ContactName,
    /// The text names a new room.
    RoomName,
    /// The text names an item of the room.
    ItemName(String),
    /// The text is the price of the named item of the room.
    ItemPrice(String, String),
    /// The text is the amount of a new debt of this debtor.
    DebtAmount(String),
    /// The text describes a new debt of this debtor, amount and currency.
    DebtDescription(String, i64, Currency),
    /// The text is an instalment plan for the debt.
    InstallmentPlan(String),
    /// The text is the amount of a payment of the debt.
    PaymentAmount(String),
    /// The dialogue waits for a button, not for text.
    PressButton(ButtonHint),
}

/// What a message asks for: a shared contact first (it comes from a reply button),
/// then a command, then what the dialogue state waits for.
pub open spec fn message_action_of(has_contact: bool, command: Option<Command>, state: SessionState) -> MessageAction {
    if has_contact {
        match state {
            SessionState::AwaitingContactShare { display_name } => MessageAction::SaveSharedContact(display_name),
            _ => MessageAction::ShareOwnContact,
        }
    } else {
        match command {
            Some(Command::Start(token)) => MessageAction::Start(token),
            Some(Command::Help) => MessageAction::Help,
            Some(Command::Menu) => MessageAction::Menu,
            Some(Command::Cancel) => MessageAction::Cancel,
            None => match state {
                SessionState::Idle => MessageAction::MainMenu,
                SessionState::AwaitingContactName => MessageAction::ContactName,
                SessionState::AwaitingContactShare { .. } => MessageAction::PressButton(ButtonHint::ShareContact),
                SessionState::AwaitingRoomName => MessageAction::RoomName,
                SessionState::AwaitingRoomCurrency { .. } => MessageAction::PressButton(ButtonHint::Currency),
                SessionState::AwaitingItemName { room_id } => MessageAction::ItemName(room_id),
                SessionState::AwaitingItemPrice { room_id, item_name } => MessageAction::ItemPrice(room_id, item_name),
                SessionState::ManagingRoom { .. } => MessageAction::MainMenu,
                SessionState::AwaitingDebtorPick => MessageAction::PressButton(ButtonHint::Debtor),
                SessionState::AwaitingDebtAmount { debtor_user_id } => MessageAction::DebtAmount(debtor_user_id),
                SessionState::AwaitingDebtCurrency { .. } => MessageAction::PressButton(ButtonHint::Currency),
                SessionState::AwaitingDebtDescription { debtor_user_id, amount_minor, currency } => {
                    MessageAction::DebtDescription(debtor_user_id, amount_minor, currency)
                },
                SessionState::AwaitingInstallmentPlan { debt_id } => MessageAction::InstallmentPlan(debt_id),
                SessionState::AwaitingPaymentAmount { debt_id } => MessageAction::PaymentAmount(debt_id),
            },
        }
    }
}

/// What a message action carries comes from the dialogue step that waits for it: the
/// shared contact is saved under the name the step holds, an item name goes to the
/// step's room, an item price to the step's room and item, a debt amount to the
/// step's debtor, a description to the step's debtor, amount and currency, a plan or
/// a payment to the step's debt. A shared contact comes first, then a command, and
/// only a plain text reaches the step.
pub proof fn lemma_message_action_carries_the_session(has_contact: bool, command: Option<Command>, state: SessionState)
    ensures
        message_action_of(has_contact, command, state) matches MessageAction::SaveSharedContact(n) ==> {
            &&& has_contact
            &&& state matches SessionState::AwaitingContactShare { display_name }
            &&& n == display_name
        },
        message_action_of(has_contact, command, state) matches MessageAction::ItemName(room) ==> {
            &&& !has_contact && command is None
            &&& state matches SessionState::AwaitingItemName { room_id }
            &&& room == room_id
        },
        message_action_of(has_contact, command, state) matches MessageAction::ItemPrice(room, item) ==> {
            &&& !has_contact && command is None
            &&& state matches SessionState::AwaitingItemPrice { room_id, item_name }
            &&& room == room_id
            &&& item == item_name
        },
        message_action_of(has_contact, command, state) matches MessageAction::DebtAmount(debtor) ==> {
            &&& !has_contact && command is None
            &&& state matches SessionState::AwaitingDebtAmount { debtor_user_id }
            &&& debtor == debtor_user_id
        },
        message_action_of(has_contact, command, state) matches MessageAction::DebtDescription(debtor, amount, cur) ==> {
            &&& !has_contact && command is None
            &&& state matches SessionState::AwaitingDebtDescription { debtor_user_id, amount_minor, currency }
            &&& debtor == debtor_user_id
            &&& amount == amount_minor
            &&& cur == currency
        },
        message_action_of(has_contact, command, state) matches MessageAction::InstallmentPlan(debt) ==> {
            &&& !has_contact && command is None
            &&& state matches SessionState::AwaitingInstallmentPlan { debt_id }
            &&& debt == debt_id
        },
        message_action_of(has_contact, command, state) matches MessageAction::PaymentAmount(debt) ==> {
            &&& !has_contact && command is None
            &&& state matches SessionState::AwaitingPaymentAmount { debt_id }
            &&& debt == debt_id
        },
        !has_contact ==> (command matches Some(Command::Start(t)) ==> message_action_of(
            has_contact,
            command,
            state,
        ) == MessageAction::Start(t)),
        !has_contact ==> (command matches Some(Command::Help) ==> message_action_of(has_contact, command, state) is Help),
        !has_contact ==> (command matches Some(Command::Menu) ==> message_action_of(has_contact, command, state) is Menu),
        !has_contact ==> (command matches Some(Command::Cancel) ==> message_action_of(
            has_contact,
            command,
            state,
        ) is Cancel),
{
}

/// Decides what a message asks for, from whether it holds a shared contact, the
/// command its text holds (`parse_command`) and the user's dialogue state.
pub fn message_action(has_contact: bool, command: Option<Command>, state: SessionState) -> (r: MessageAction)
    ensures
        r == message_action_of(has_contact, command, state),
{
    if has_contact {
        return match state {
            SessionState::AwaitingContactShare { display_name } => MessageAction::SaveSharedContact(display_name),
            _ => MessageAction::ShareOwnContact,
        };
    }
    match command {
        Some(Command::Start(token)) => MessageAction::Start(token),
        Some(Command::Help) => MessageAction::Help,
        Some(Command::Menu) => MessageAction::Menu,
        Some(Command::Cancel) => MessageAction::Cancel,
        None => match state {
            SessionState::Idle => MessageAction::MainMenu,
            SessionState::AwaitingContactName => MessageAction::ContactName,
            SessionState::AwaitingContactShare { .. } => MessageAction::PressButton(ButtonHint::ShareContact),
            SessionState::AwaitingRoomName => MessageAction::RoomName,
            SessionState::AwaitingRoomCurrency { .. } => MessageAction::PressButton(ButtonHint::Currency),
            SessionState::AwaitingItemName { room_id } => MessageAction::ItemName(room_id),
            SessionState::AwaitingItemPrice { room_id, item_name } => MessageAction::ItemPrice(room_id, item_name),
            SessionState::ManagingRoom { .. } => MessageAction::MainMenu,
            SessionState::AwaitingDebtorPick => MessageAction::PressButton(ButtonHint::Debtor),
            SessionState::AwaitingDebtAmount { debtor_user_id } => MessageAction::DebtAmount(debtor_user_id),
            SessionState::AwaitingDebtCurrency { .. } => MessageAction::PressButton(ButtonHint::Currency),
            SessionState::AwaitingDebtDescription { debtor_user_id, amount_minor, currency } => {
                MessageAction::DebtDescription(debtor_user_id, amount_minor, currency)
            },
            SessionState::AwaitingInstallmentPlan { debt_id } => MessageAction::InstallmentPlan(debt_id),
            SessionState::AwaitingPaymentAmount { debt_id } => MessageAction::PaymentAmount(debt_id),
        },
    }
}

/// What a pressed button asks for, once the dialogue state is taken into account.
#[derive(Debug, Clone)]
pub enum CallbackRoute {
    /// The action as the button data gives it.
    Act(CallbackAction),
    /// The currency of the room being created under this name.
    RoomCurrency(String, String),
    /// Add the contact to the room whose members are being managed: (room, contact).
    AddRoomMember(String, String),
    /// The currency of the debt being created: (debtor, amount text, currency code).
    DebtCurrency(String, String, String),
    /// A button that the dialogue no longer waits for.
    Ignore,
}

/// Buttons that belong to a dialogue step count only in that step: a room currency
/// while a room name waits for it, a member while a room's members are managed, a
/// debt currency while a debt amount waits for it.
pub open spec fn callback_route_of(a: CallbackAction, state: SessionState) -> CallbackRoute {
    match a {
        CallbackAction::RoomCurrency(code) => match state {
            SessionState::AwaitingRoomCurrency { name } => CallbackRoute::RoomCurrency(name, code),
            _ => CallbackRoute::Ignore,
        },
        CallbackAction::RoomAddMember(contact_id) => match state {
            SessionState::ManagingRoom { room_id } => CallbackRoute::AddRoomMember(room_id, contact_id),
            _ => CallbackRoute::Ignore,
        },
        CallbackAction::DebtCurrency(code) => match state {
            SessionState::AwaitingDebtCurrency { debtor_user_id, amount_minor_or_text } => {
                CallbackRoute::DebtCurrency(debtor_user_id, amount_minor_or_text, code)
            },
            _ => CallbackRoute::Ignore,
        },
        _ => CallbackRoute::Act(a),
    }
}

/// What a route carries comes from the button and from the dialogue step it belongs
/// to: a debt-currency route carries the session's debtor as its debtor, the
/// session's amount text as its amount and the button's code; a room-currency route
/// the session's room name and the button's code; a member route the managed room
/// and the button's contact. Any other button is passed on as it is. A step button
/// pressed outside its step is ignored, and inside its step it is never ignored.
pub proof fn lemma_callback_route_carries_the_session(a: CallbackAction, state: SessionState)
    ensures
        callback_route_of(a, state) matches CallbackRoute::DebtCurrency(debtor, amount, code) ==> {
            &&& state matches SessionState::AwaitingDebtCurrency { debtor_user_id, amount_minor_or_text }
            &&& debtor == debtor_user_id
            &&& amount == amount_minor_or_text
            &&& a matches CallbackAction::DebtCurrency(c)
            &&& code == c
        },
        callback_route_of(a, state) matches CallbackRoute::RoomCurrency(room_name, code) ==> {
            &&& state matches SessionState::AwaitingRoomCurrency { name }
            &&& room_name == name
            &&& a matches CallbackAction::RoomCurrency(c)
            &&& code == c
        },
        callback_route_of(a, state) matches CallbackRoute::AddRoomMember(room, contact) ==> {
            &&& state matches SessionState::ManagingRoom { room_id }
            &&& room == room_id
            &&& a matches CallbackAction::RoomAddMember(c)
            &&& contact == c
        },
        callback_route_of(a, state) matches CallbackRoute::Act(x) ==> x == a && !(a is RoomCurrency)
            && !(a is RoomAddMember) && !(a is DebtCurrency),
        callback_route_of(a, state) is Ignore <==> (a is RoomCurrency && !(state is AwaitingRoomCurrency))
            || (a is RoomAddMember && !(state is ManagingRoom)) || (a is DebtCurrency
            && !(state is AwaitingDebtCurrency)),
{
}

/// Decides what a pressed button asks for in the user's dialogue state.
pub fn callback_route(a: CallbackAction, state: SessionState) -> (r: CallbackRoute)
    ensures
        r == callback_route_of(a, state),
{
    match a {
        CallbackAction::RoomCurrency(code) => match state {
            SessionState::AwaitingRoomCurrency { name } => CallbackRoute::RoomCurrency(name, code),
            _ => CallbackRoute::Ignore,
        },
        CallbackAction::RoomAddMember(contact_id) => match state {
            SessionState::ManagingRoom { room_id } => CallbackRoute::AddRoomMember(room_id, contact_id),
            _ => CallbackRoute::Ignore,
        },
        CallbackAction::DebtCurrency(code) => match state {
            SessionState::AwaitingDebtCurrency { debtor_user_id, amount_minor_or_text } => {
                CallbackRoute::DebtCurrency(debtor_user_id, amount_minor_or_text, code)
            },
            _ => CallbackRoute::Ignore,
        },
        other => CallbackRoute::Act(other),
    }
}

/// The short answer shown on a pressed button, where the route has one.
pub open spec fn callback_ack_of(r: CallbackRoute) -> Option<Seq<char>> {
    match r {
        CallbackRoute::Act(CallbackAction::ContactDelete(_)) => Some("Удалено"@),
        CallbackRoute::Act(CallbackAction::ContactBlock(_)) => Some("Заблокирован"@),
        CallbackRoute::Act(CallbackAction::ContactUnblock(_)) => Some("Разблокирован"@),
        CallbackRoute::Act(CallbackAction::DebtForgive(_)) => Some("Прощено"@),
        CallbackRoute::AddRoomMember(_, _) => Some("Добавлено"@),
        _ => None,
    }
}

/// The short answer for a pressed button.
pub fn callback_ack(r: &CallbackRoute) -> (t: Option<&'static str>)
    ensures
        match t {
            Some(s) => callback_ack_of(*r) == Some(s@),
            None => callback_ack_of(*r) is None,
        },
{
    match r {
        CallbackRoute::Act(CallbackAction::ContactDelete(_)) => Some("Удалено"),
        CallbackRoute::Act(CallbackAction::ContactBlock(_)) => Some("Заблокирован"),
        CallbackRoute::Act(CallbackAction::ContactUnblock(_)) => Some("Разблокирован"),
        CallbackRoute::Act(CallbackAction::DebtForgive(_)) => Some("Прощено"),
        CallbackRoute::AddRoomMember(_, _) => Some("Добавлено"),
        _ => None,
    }
}

/// Whether a message comes from a person: it has a sender, and the sender is not a
/// bot. Other messages are left unanswered.
pub fn from_person(from: &Option<TgUser>) -> (r: bool)
    ensures
        r == (from matches Some(u) && !u.is_bot),
{
    match from {
        Some(u) => !u.is_bot,
        None => false,
    }
}

} // verus!
