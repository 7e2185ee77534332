# loan_wallet

A Telegram bot for splitting shared purchases and keeping track of debts between
friends, with instalment plans and reminders.

The decisions of the bot live in a library verified with Verus (`src/`): money
amounts and their parsing and display, phone number normalisation, splitting item
prices between the people who took them, room totals and settlements, simplifying
chains of debts, payments and instalment schedules, reminder rounds, and reading
the commands and button data that Telegram delivers. Each public function states
its result in its `ensures`; the properties that span several calls are public
proof functions (`lemma_*`).

- `src/models/` — users, contacts, rooms, debts, invitations, dialogue state, money.
- `src/services/` — local time, instalment plans, the reminder rounds, splitting
  and settling.
- `src/handlers/` — what each screen offers and what each command or button means.
- `src/telegram/` — the Bot API data the bot reads and sends.
- `tests/` — tests on concrete values.
- `app/` — the program around the library: configuration from the environment,
  MongoDB storage, the Bot API client, the webhook server, the reminder loop and
  the message texts.
