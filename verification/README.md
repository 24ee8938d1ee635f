# grep_engine

A small grep-style regular expression engine (`-E` syntax subset), written in
Verus. Every matcher carries a contract that fixes its result exactly, and the
engine as a whole is proved to terminate, never to panic, and to keep a few
invariants.

Supported syntax: literal characters, `.`, `\d`, `\w`, `[abc]`, `[^abc]`, `^`,
`$`, `+`, `?`, `*`, alternation `a|b`, capturing groups `( .. )` and
back-references `\1` to `\9`. A backslash before an operator (`\.`, `\(` ..)
matches that character, but the parser moves on by one character only, so
the operator character is read again as the next element of the pattern.

## Layout

- `src/search.rs`: `regex_match`, which tries a pattern at each position of a
  line and returns the first match, with the laws that it is the leftmost
  match and lies within the line.
- `src/matchers/`: the matchers. `mod.rs` holds the match state (`Match`,
  `Capture`), the `Matcher` trait and the `AnyMatcher` dispatch; one file per
  matcher holds its type, the spec function that says what it does and its
  verified implementation. `pattern.rs` turns the start of a pattern into a
  matcher, `alternation.rs` splits a pattern at its top-level `|`s, and
  `repetition.rs` holds the steps that `+`, `?` and `*` share.
- `src/matchers/captures_law.rs`, `src/matchers/bounds_law.rs` and
  `src/matchers/progress_law.rs`: engine-wide laws (no step drops a capture;
  no step leaves the line; a failed step hands back the match it was given
  and a successful one never moves back), and `src/matchers/literal_law.rs`
  (a pattern of plain ASCII characters matches like its literal text).
- `src/utils.rs`: finding the bracket that closes an opening one.
- `app/main.rs`: the command-line program (`echo text | grep_engine -E pattern`).

## Conventions

The search tries each byte position of the line. Single-character classes
read the character at the char position of the offset, while `$`, literal
text and back-references take the offset as a byte position; on ASCII lines
the two agree. The lengths that matchers report count the bytes of their
pattern text, and the parser moves on through the pattern by those lengths:
the quantifier after a class is looked up at the char position given by
the class's byte length, and the rest of the pattern starts at that byte
position (it is dropped when that is no character boundary). A
failed step hands back the match it was given, so the next alternative
starts from the same place. A pattern or input that the engine cannot
run to completion gives a `MatchError` naming the reason; the program turns
it into a panic with the matching message.
