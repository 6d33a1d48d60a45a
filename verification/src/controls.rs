use vstd::prelude::*;

use crate::calculator::lexer::{ascii_lower, is_ascii_letter};

verus! {

/// A key press as the controls read it: a key that produced one character, a key that
/// produced some other text, or a named key.
#[derive(Clone, Copy, Debug, PartialEq, Eq, Structural)]
pub enum KeyInput {
    Character(char),
    Text,
    Backspace,
    Escape,
    Tab,
    ArrowUp,
    ArrowDown,
    ArrowLeft,
    ArrowRight,
    Other,
}

/// What a key press does in calculator mode. After `Append`, `DeleteLast` and
/// `Reevaluate` the input is evaluated again.
#[derive(Clone, Copy, Debug, PartialEq, Eq, Structural)]
pub enum CalcKeyAction {
    Append(char),
    DeleteLast,
    Reevaluate,
    Clear,
    ToggleMode,
    ToggleHelp,
    Ignore,
}

/// What a key press does in graph mode.
#[derive(Clone, Copy, Debug, PartialEq, Eq, Structural)]
pub enum GraphKeyAction {
    ZoomIn,
    ZoomOut,
    ResetView,
    PanUp,
    PanDown,
    PanLeft,
    PanRight,
    ShowCalculator,
    ToggleHelp,
    Ignore,
}

/// Digits, operators (modulo and factorial among them), parentheses and the decimal point
/// that calculator mode types as they are.
pub open spec fn is_calc_char(c: char) -> bool {
    ('0' <= c <= '9') || c == '+' || c == '-' || c == '*' || c == '/' || c == '^' || c == '%'
        || c == '!' || c == '(' || c == ')' || c == '.'
}

/// The calculator-mode meaning of a key: calculator characters are typed; `?` shows or
/// hides the keyboard help; any other one-byte character is typed in lower case if it is
/// a letter, and otherwise only re-evaluates; Backspace deletes, Escape clears, Tab
/// switches mode; the rest is ignored.
pub open spec fn spec_calc_key_action(key: KeyInput) -> CalcKeyAction {
    match key {
        KeyInput::Character(c) => if is_calc_char(c) {
            CalcKeyAction::Append(c)
        } else if c == '?' {
            CalcKeyAction::ToggleHelp
        } else if (c as u32) < 128 {
            if is_ascii_letter(c) {
                CalcKeyAction::Append(ascii_lower(c))
            } else {
                CalcKeyAction::Reevaluate
            }
        } else {
            CalcKeyAction::Ignore
        },
        KeyInput::Backspace => CalcKeyAction::DeleteLast,
        KeyInput::Escape => CalcKeyAction::Clear,
        KeyInput::Tab => CalcKeyAction::ToggleMode,
        _ => CalcKeyAction::Ignore,
    }
}

/// Decide what a key press does in calculator mode.
pub fn calc_key_action(key: KeyInput) -> (r: CalcKeyAction)
    ensures
        r == spec_calc_key_action(key),
{
    match key {
        KeyInput::Character(c) => {
            if ('0' <= c && c <= '9') || c == '+' || c == '-' || c == '*' || c == '/' || c == '^'
                || c == '%' || c == '!' || c == '(' || c == ')' || c == '.' {
                CalcKeyAction::Append(c)
            } else if c == '?' {
                CalcKeyAction::ToggleHelp
            } else if (c as u32) < 128 {
                if 'A' <= c && c <= 'Z' {
                    let code: u32 = c as u32;
                    let lower: u8 = (code + 32) as u8;
                    CalcKeyAction::Append(lower as char)
                } else if 'a' <= c && c <= 'z' {
                    CalcKeyAction::Append(c)
                } else {
                    CalcKeyAction::Reevaluate
                }
            } else {
                CalcKeyAction::Ignore
            }
        },
        KeyInput::Backspace => CalcKeyAction::DeleteLast,
        KeyInput::Escape => CalcKeyAction::Clear,
        KeyInput::Tab => CalcKeyAction::ToggleMode,
        _ => CalcKeyAction::Ignore,
    }
}

/// The graph-mode meaning of a key: `+` and `=` zoom in, `-` zooms out, the R key (`r`
/// or `R`) resets the view, `?` shows or hides the keyboard help, arrows pan, Tab goes back to the
/// calculator; the rest is ignored.
pub open spec fn spec_graph_key_action(key: KeyInput) -> GraphKeyAction {
    match key {
        KeyInput::Character(c) => if c == '+' || c == '=' {
            GraphKeyAction::ZoomIn
        } else if c == '-' {
            GraphKeyAction::ZoomOut
        } else if c == 'r' || c == 'R' {
            GraphKeyAction::ResetView
        } else if c == '?' {
            GraphKeyAction::ToggleHelp
        } else {
            GraphKeyAction::Ignore
        },
        KeyInput::ArrowUp => GraphKeyAction::PanUp,
        KeyInput::ArrowDown => GraphKeyAction::PanDown,
        KeyInput::ArrowLeft => GraphKeyAction::PanLeft,
        KeyInput::ArrowRight => GraphKeyAction::PanRight,
        KeyInput::Tab => GraphKeyAction::ShowCalculator,
        _ => GraphKeyAction::Ignore,
    }
}

/// Decide what a key press does in graph mode.
pub fn graph_key_action(key: KeyInput) -> (r: GraphKeyAction)
    ensures
        r == spec_graph_key_action(key),
{
    match key {
        KeyInput::Character(c) => {
            if c == '+' || c == '=' {
                GraphKeyAction::ZoomIn
            } else if c == '-' {
                GraphKeyAction::ZoomOut
            } else if c == 'r' || c == 'R' {
                GraphKeyAction::ResetView
            } else if c == '?' {
                GraphKeyAction::ToggleHelp
            } else {
                GraphKeyAction::Ignore
            }
        },
        KeyInput::ArrowUp => GraphKeyAction::PanUp,
        KeyInput::ArrowDown => GraphKeyAction::PanDown,
        KeyInput::ArrowLeft => GraphKeyAction::PanLeft,
        KeyInput::ArrowRight => GraphKeyAction::PanRight,
        KeyInput::Tab => GraphKeyAction::ShowCalculator,
        _ => GraphKeyAction::Ignore,
    }
}

/// In calculator mode the digits, the operators `+ - * / ^ %`, the factorial `!`, the
/// parentheses and the decimal point are typed as they are, and letters are typed in
/// lower case; `?` toggles the help.
pub proof fn law_calculator_keys(c: char)
    ensures
        ('0' <= c <= '9' || c == '+' || c == '-' || c == '*' || c == '/' || c == '^' || c == '%'
            || c == '!' || c == '(' || c == ')' || c == '.') ==> spec_calc_key_action(
            KeyInput::Character(c),
        ) == CalcKeyAction::Append(c),
        'a' <= c <= 'z' ==> spec_calc_key_action(KeyInput::Character(c)) == CalcKeyAction::Append(
            c,
        ),
        'A' <= c <= 'Z' ==> spec_calc_key_action(KeyInput::Character(c)) == CalcKeyAction::Append(
            ((c as u32) + 32) as char,
        ),
        c == '?' ==> spec_calc_key_action(KeyInput::Character(c)) == CalcKeyAction::ToggleHelp,
{
}

/// In graph mode `+` and `=` zoom in, `-` zooms out, `r` and `R` reset the view, `?`
/// toggles the help, the arrows pan and Tab shows the calculator.
pub proof fn law_graph_keys(c: char)
    ensures
        (c == '+' || c == '=') ==> spec_graph_key_action(KeyInput::Character(c))
            == GraphKeyAction::ZoomIn,
        c == '-' ==> spec_graph_key_action(KeyInput::Character(c)) == GraphKeyAction::ZoomOut,
        (c == 'r' || c == 'R') ==> spec_graph_key_action(KeyInput::Character(c))
            == GraphKeyAction::ResetView,
        c == '?' ==> spec_graph_key_action(KeyInput::Character(c)) == GraphKeyAction::ToggleHelp,
        spec_graph_key_action(KeyInput::ArrowUp) == GraphKeyAction::PanUp,
        spec_graph_key_action(KeyInput::ArrowDown) == GraphKeyAction::PanDown,
        spec_graph_key_action(KeyInput::ArrowLeft) == GraphKeyAction::PanLeft,
        spec_graph_key_action(KeyInput::ArrowRight) == GraphKeyAction::PanRight,
        spec_graph_key_action(KeyInput::Tab) == GraphKeyAction::ShowCalculator,
{
}

/// The number of evaluations the history keeps.
pub const HISTORY_LIMIT: usize = 20;

/// The number of curves that can be plotted besides the main one.
pub const MAX_ADDITIONAL_CURVES: usize = 4;

/// The history after recording `item`: appended, and the oldest entry dropped when the
/// history grows past the limit.
pub open spec fn spec_push_history<T>(history: Seq<T>, item: T) -> Seq<T> {
    let pushed = history.push(item);
    if pushed.len() > HISTORY_LIMIT {
        pushed.drop_first()
    } else {
        pushed
    }
}

/// Record an evaluation in the history.
pub fn push_history<T>(history: &mut Vec<T>, item: T)
    ensures
        final(history)@ == spec_push_history(old(history)@, item),
        old(history)@.len() <= HISTORY_LIMIT ==> final(history)@.len() <= HISTORY_LIMIT,
        final(history)@.last() == item,
{
    history.push(item);
    if history.len() > HISTORY_LIMIT {
        history.remove(0);
    }
}

/// The history keeps the 20 most recent evaluations: after recording an item in a history
/// of at most 20, it holds the last (at most 20) entries of the old history followed by
/// the item, oldest first.
pub proof fn law_history_keeps_recent<T>(history: Seq<T>, item: T)
    requires
        history.len() <= 20,
    ensures
        spec_push_history(history, item) == if history.len() < 20 {
            history.push(item)
        } else {
            history.subrange(1, 20).push(item)
        },
        spec_push_history(history, item).len() <= 20,
        spec_push_history(history, item).last() == item,
{
    if history.len() == 20 {
        assert(history.push(item).drop_first() =~= history.subrange(1, 20).push(item));
    }
}

/// Up to five curves can be plotted: the main one and at most four more (so `add_curve`
/// adds one exactly when fewer than four additional curves are there).
pub proof fn law_curve_limit()
    ensures
        MAX_ADDITIONAL_CURVES == 4,
{
}

/// Add an empty curve, unless the limit of additional curves is reached.
pub fn add_curve(curves: &mut Vec<String>) -> (added: bool)
    ensures
        added == (old(curves)@.len() < MAX_ADDITIONAL_CURVES),
        added ==> final(curves)@.len() == old(curves)@.len() + 1 && final(curves)@.drop_last()
            == old(curves)@ && final(curves)@.last()@ == Seq::<char>::empty(),
        !added ==> final(curves)@ == old(curves)@,
        old(curves)@.len() <= MAX_ADDITIONAL_CURVES ==> final(curves)@.len()
            <= MAX_ADDITIONAL_CURVES,
{
    if curves.len() < MAX_ADDITIONAL_CURVES {
        curves.push(String::new());
        proof {
            assert(final(curves)@.drop_last() =~= old(curves)@);
        }
        true
    } else {
        false
    }
}

/// Remove the curve at `index`, if there is one.
pub fn remove_curve(curves: &mut Vec<String>, index: usize) -> (removed: bool)
    ensures
        removed == (index < old(curves)@.len()),
        removed ==> final(curves)@ == old(curves)@.remove(index as int),
        !removed ==> final(curves)@ == old(curves)@,
{
    if index < curves.len() {
        curves.remove(index);
        true
    } else {
        false
    }
}

/// Replace the expression of the curve at `index`, if there is one.
pub fn update_curve(curves: &mut Vec<String>, index: usize, expr: String) -> (updated: bool)
    ensures
        updated == (index < old(curves)@.len()),
        updated ==> final(curves)@ == old(curves)@.update(index as int, expr),
        !updated ==> final(curves)@ == old(curves)@,
{
    if index < curves.len() {
        curves.set(index, expr);
        true
    } else {
        false
    }
}

} // verus!
