//! A window of a universal machine's tape around its head, as two lines
//! of text: the symbols, and a `^` under the head.
use vstd::prelude::*;

use crate::json_export::push_char;
use crate::utm_symbols::Symbol;

verus! {

/// How many cells the window shows on each side of the head.
pub const RADIUS: usize = 30;

/// The character shown for offset `i` of the window: the cell at
/// `pos + i - RADIUS`, a space before the tape's start, and the blank past
/// its written end.
pub open spec fn window_char(tape: Seq<Symbol>, blank: Symbol, pos: int, i: int) -> char {
    let idx = pos + i - RADIUS;
    if idx < 0 {
        ' '
    } else if idx < tape.len() {
        tape[idx].spec_char()
    } else {
        blank.spec_char()
    }
}

/// The symbols line: `... ` where cells are hidden to the left (four
/// spaces otherwise), the window's characters, and ` ...`.
pub open spec fn symbols_line(tape: Seq<Symbol>, blank: Symbol, pos: int) -> Seq<char> {
    (if pos > RADIUS {
        seq!['.', '.', '.', ' ']
    } else {
        seq![' ', ' ', ' ', ' ']
    }) + Seq::new((2 * RADIUS + 1) as nat, |i: int| window_char(tape, blank, pos, i)) + seq![' ', '.', '.', '.']
}

/// The marker line: four spaces, then a `^` under the head and spaces
/// elsewhere.
pub open spec fn marker_line() -> Seq<char> {
    seq![' ', ' ', ' ', ' '] + Seq::new((2 * RADIUS + 1) as nat, |i: int| if i == RADIUS { '^' } else { ' ' })
}

fn push_str4(s: &mut String, a: char, b: char, c: char, d: char)
    ensures
        final(s)@ == old(s)@ + seq![a, b, c, d],
{
    push_char(s, a);
    push_char(s, b);
    push_char(s, c);
    push_char(s, d);
    assert(s@ =~= old(s)@ + seq![a, b, c, d]);
}

/// The window of a tape around the head at `pos`: the symbols line and
/// the marker line.
pub fn tape_window(tape: &[Symbol], pos: usize, blank: Symbol) -> (r: (String, String))
    requires
        pos + 2 * RADIUS + 1 <= usize::MAX,
    ensures
        r.0@ == symbols_line(tape@, blank, pos as int),
        r.1@ == marker_line(),
{
    let mut top = String::new();
    let mut bot = String::new();
    if pos > RADIUS {
        push_str4(&mut top, '.', '.', '.', ' ');
    } else {
        push_str4(&mut top, ' ', ' ', ' ', ' ');
    }
    push_str4(&mut bot, ' ', ' ', ' ', ' ');
    let ghost top0 = top@;
    let ghost bot0 = bot@;
    assert(top0 =~= if pos > RADIUS { seq!['.', '.', '.', ' '] } else { seq![' ', ' ', ' ', ' '] });
    let mut i: usize = 0;
    while i < 2 * RADIUS + 1
        invariant
            i <= 2 * RADIUS + 1,
            pos + 2 * RADIUS + 1 <= usize::MAX,
            top@ == top0 + Seq::new(i as nat, |j: int| window_char(tape@, blank, pos as int, j)),
            bot@ == bot0 + Seq::new(i as nat, |j: int| if j == RADIUS { '^' } else { ' ' }),
        decreases 2 * RADIUS + 1 - i,
    {
        let c = if pos + i < RADIUS {
            ' '
        } else {
            let idx = pos + i - RADIUS;
            if idx < tape.len() {
                tape[idx].to_char()
            } else {
                blank.to_char()
            }
        };
        push_char(&mut top, c);
        push_char(&mut bot, if i == RADIUS { '^' } else { ' ' });
        assert(top@ =~= top0 + Seq::new((i + 1) as nat, |j: int| window_char(tape@, blank, pos as int, j)));
        assert(bot@ =~= bot0 + Seq::new((i + 1) as nat, |j: int| if j == RADIUS { '^' } else { ' ' }));
        i = i + 1;
    }
    push_str4(&mut top, ' ', '.', '.', '.');
    assert(top@ =~= symbols_line(tape@, blank, pos as int));
    assert(bot@ =~= marker_line());
    (top, bot)
}

} // verus!
