# Scalable Terminal

A desktop trading terminal for the Scalable Capital broker. The `sc` command
line tool is its whole backend: the program runs it as a child process and reads
JSON from it.

What the program decides is in a library that Verus verifies. What it does to
the outside world is around it.

## The library, `src/`

* `num`, `order`, `exact`: doubles as bit patterns, with arithmetic that is exact
  up to the rounding that IEEE 754 asks for; the facts about order that follow,
  and that whole numbers, and multiples of a power of two, are added exactly.
* `text`, `seqs`, `table`: trimming, letter case and decimals; lemmas about
  sequences; a small map.
* `json`: JSON values. Reading them is left to `serde_json`.
* `sc`: command lines, the envelope of an answer, error kinds, and lookups by
  path.
* `model`: quotes, holdings, the account, working orders, charts and candles,
  moving averages, analytics, derivatives, price alerts, news, previews of
  orders, trailing stops, and the calendar.
* `workspace`: the user's own lists.
* `shortcuts`: the table of keyboard shortcuts.
* `worker`: the shared state. What a command calls for, what each answer
  changes, when to poll, how long to wait after a refusal, the two phases of an
  order, and how a trailing stop is moved up.
* `screen`, `options`: what is shown, as far as it is decided and not drawn, what
  a key, a button or the confirm dialog sends, and the command line of the program
  itself.

Functions named `law_..` state what holds of several functions together: that a
stop is only ever moved up, that every tick is in one candle, that a bucket is
never finer than the series, how far a moving average may be from the mean of its
window, that nothing is polled during a wait, that a preview
places nothing, that an order is sent once, and so on.

## What is trusted

Each trusted item names the function that it speaks of. They are:
`serde_json::from_str` and the variants of `serde_json::Value`,
`egui::Modifiers::matches_exact`, and from the standard library
`char::is_whitespace`, `String::push`, `str::eq_ignore_ascii_case`,
`str::to_uppercase` and `str::parse` into a double.

## The rest

`app/` is the program around the library: processes, threads, files and the
window. `tests/` runs the library on payloads in the shape of the broker's
answers, and its arithmetic against that of the machine.
