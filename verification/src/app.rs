//! The state of a session: the list of dependencies and the cursor on it.

use crate::dependency::Dependency;
use crate::metadata::{load_dependencies, lists, refuses, Graph, LoadError};
use vstd::arithmetic::div_mod::{
    lemma_add_mod_noop, lemma_mod_add_multiples_vanish, lemma_mod_self_0,
    lemma_mod_sub_multiples_vanish, lemma_small_mod, lemma_sub_mod_noop,
};
use vstd::prelude::*;

verus! {

/// A cursor fits a list of `len` entries when it points into the list, or
/// is absent and the list is empty.
pub open spec fn cursor_valid(cursor: Option<int>, len: int) -> bool {
    match cursor {
        Some(i) => 0 <= i < len,
        None => len == 0,
    }
}

/// The cursor after a step forward: one further, and from the last entry
/// to the first; unchanged on an empty list.
pub open spec fn next_cursor(cursor: Option<int>, len: int) -> Option<int> {
    if len <= 0 {
        cursor
    } else {
        match cursor {
            Some(i) => Some((i + 1) % len),
            None => Some(1int % len),
        }
    }
}

/// The cursor after a step back: one earlier, and from the first entry to
/// the last; unchanged on an empty list.
pub open spec fn previous_cursor(cursor: Option<int>, len: int) -> Option<int> {
    if len <= 0 {
        cursor
    } else {
        match cursor {
            Some(i) if i > 0 => Some(i - 1),
            _ => Some(len - 1),
        }
    }
}

/// The cursor after `n` steps forward.
pub open spec fn next_cursor_times(cursor: Option<int>, len: int, n: nat) -> Option<int>
    decreases n,
{
    if n == 0 {
        cursor
    } else {
        next_cursor(next_cursor_times(cursor, len, (n - 1) as nat), len)
    }
}

/// The cursor after `n` steps back.
pub open spec fn previous_cursor_times(cursor: Option<int>, len: int, n: nat) -> Option<int>
    decreases n,
{
    if n == 0 {
        cursor
    } else {
        previous_cursor(previous_cursor_times(cursor, len, (n - 1) as nat), len)
    }
}

/// What a key stands for.
#[derive(Debug, Clone, Copy, PartialEq, Eq)]
pub enum KeyCode {
    Char(char),
    Esc,
    Up,
    Down,
    /// Any other key.
    Other,
}

/// What the terminal reports.
#[derive(Debug, Clone, Copy, PartialEq, Eq)]
pub enum Event {
    /// A key went down.
    Press(KeyCode),
    /// Anything else: a key released or held, the window resized.
    Other,
}

/// What an event asks of the session.
#[derive(Debug, Clone, Copy, PartialEq, Eq, Structural)]
pub enum Command {
    Quit,
    Next,
    Previous,
    Nothing,
}

/// The command bound to an event: `q` and Escape quit, `j` and Down step
/// forward, `k`, Up and `u` step back, and nothing else does anything.
pub open spec fn command_of(event: Event) -> Command {
    match event {
        Event::Press(KeyCode::Esc) => Command::Quit,
        Event::Press(KeyCode::Down) => Command::Next,
        Event::Press(KeyCode::Up) => Command::Previous,
        Event::Press(KeyCode::Char(c)) => if c == 'q' {
            Command::Quit
        } else if c == 'j' {
            Command::Next
        } else if c == 'k' || c == 'u' {
            Command::Previous
        } else {
            Command::Nothing
        },
        _ => Command::Nothing,
    }
}

/// The cursor after a command.
pub open spec fn cursor_after(command: Command, cursor: Option<int>, len: int) -> Option<int> {
    match command {
        Command::Next => next_cursor(cursor, len),
        Command::Previous => previous_cursor(cursor, len),
        _ => cursor,
    }
}

/// The session's state.
#[derive(Debug)]
pub struct App {
    dependencies: Vec<Dependency>,
    selected: Option<usize>,
}

impl App {
    #[verifier::type_invariant]
    spec fn fits(self) -> bool {
        match self.selected {
            Some(i) => i < self.dependencies.len(),
            None => self.dependencies.len() == 0,
        }
    }

    /// The list of dependencies.
    pub closed spec fn items(self) -> Seq<Dependency> {
        self.dependencies@
    }

    /// The index of the selected dependency.
    pub closed spec fn cursor(self) -> Option<int> {
        match self.selected {
            Some(i) => Some(i as int),
            None => None,
        }
    }

    /// The cursor fits the list.
    pub open spec fn well_formed(self) -> bool {
        cursor_valid(self.cursor(), self.items().len() as int)
    }

    /// The session on the given list, the cursor on its first entry.
    pub fn with_dependencies(dependencies: Vec<Dependency>) -> (r: App)
        ensures
            r.items() == dependencies@,
            r.cursor() == if dependencies@.len() == 0 {
                None
            } else {
                Some(0int)
            },
            r.well_formed(),
    {
        let selected = if dependencies.len() == 0 {
            None
        } else {
            Some(0)
        };
        App { dependencies, selected }
    }

    /// The session on the direct dependencies of the graph's root package,
    /// the cursor on the first of them.
    pub fn new(graph: &Graph) -> (r: Result<App, LoadError>)
        ensures
            match r {
                Ok(app) => {
                    &&& lists(*graph, app.items())
                    &&& app.cursor() == if app.items().len() == 0 {
                        None
                    } else {
                        Some(0int)
                    }
                    &&& app.well_formed()
                },
                Err(e) => refuses(*graph, e),
            },
    {
        match load_dependencies(graph) {
            Ok(dependencies) => Ok(App::with_dependencies(dependencies)),
            Err(e) => Err(e),
        }
    }

    /// The list of dependencies.
    pub fn dependencies(&self) -> (r: &Vec<Dependency>)
        ensures
            r@ == self.items(),
    {
        &self.dependencies
    }

    /// The index of the selected dependency.
    pub fn selected(&self) -> (r: Option<usize>)
        ensures
            self.well_formed(),
            match r {
                Some(i) => self.cursor() == Some(i as int),
                None => self.cursor() is None,
            },
    {
        proof {
            use_type_invariant(self);
        }
        self.selected
    }

    /// Moves the cursor one entry forward, from the last to the first.
    /// Nothing happens on an empty list.
    pub fn next(&mut self)
        ensures
            final(self).items() == old(self).items(),
            final(self).cursor() == next_cursor(
                old(self).cursor(),
                old(self).items().len() as int,
            ),
            old(self).well_formed(),
            final(self).well_formed(),
            old(self).items().len() == 0 ==> final(self).cursor() is None,
    {
        proof {
            use_type_invariant(&*self);
        }
        let len = self.dependencies.len();
        if len == 0 {
            return ;
        }
        let i: usize = match self.selected {
            Some(i) => i,
            None => 0,
        };
        self.selected = Some((i + 1) % len);
    }

    /// Moves the cursor one entry back, from the first to the last.
    /// Nothing happens on an empty list.
    pub fn previous(&mut self)
        ensures
            final(self).items() == old(self).items(),
            final(self).cursor() == previous_cursor(
                old(self).cursor(),
                old(self).items().len() as int,
            ),
            old(self).well_formed(),
            final(self).well_formed(),
            old(self).items().len() == 0 ==> final(self).cursor() is None,
    {
        proof {
            use_type_invariant(&*self);
        }
        let len = self.dependencies.len();
        if len == 0 {
            return ;
        }
        let previous: usize = match self.selected {
            Some(i) if i > 0 => i - 1,
            _ => len - 1,
        };
        self.selected = Some(previous);
    }

    /// The selected dependency, if any.
    pub fn selected_dep(&self) -> (r: Option<&Dependency>)
        ensures
            match self.cursor() {
                Some(i) => 0 <= i < self.items().len() && r == Some(&self.items()[i]),
                None => r is None && self.items().len() == 0,
            },
    {
        proof {
            use_type_invariant(self);
        }
        match self.selected {
            Some(i) => Some(&self.dependencies[i]),
            None => None,
        }
    }

    /// Applies what the event asks and tells whether the session goes on:
    /// `false` once it is to end.
    pub fn handle_event(&mut self, event: Event) -> (goes_on: bool)
        ensures
            final(self).items() == old(self).items(),
            final(self).cursor() == cursor_after(
                command_of(event),
                old(self).cursor(),
                old(self).items().len() as int,
            ),
            final(self).well_formed(),
            goes_on == (command_of(event) != Command::Quit),
    {
        proof {
            use_type_invariant(&*self);
        }
        match command_for(event) {
            Command::Quit => false,
            Command::Next => {
                self.next();
                true
            },
            Command::Previous => {
                self.previous();
                true
            },
            Command::Nothing => true,
        }
    }
}

/// The command bound to an event.
pub fn command_for(event: Event) -> (r: Command)
    ensures
        r == command_of(event),
{
    match event {
        Event::Press(KeyCode::Esc) => Command::Quit,
        Event::Press(KeyCode::Down) => Command::Next,
        Event::Press(KeyCode::Up) => Command::Previous,
        Event::Press(KeyCode::Char(c)) => {
            if c == 'q' {
                Command::Quit
            } else if c == 'j' {
                Command::Next
            } else if c == 'k' || c == 'u' {
                Command::Previous
            } else {
                Command::Nothing
            }
        },
        _ => Command::Nothing,
    }
}

/// On a list of `len` entries, `n` steps forward from entry `i` end on
/// entry `(i + n) mod len`.
pub proof fn lemma_next_cursor_times(i: int, len: int, n: nat)
    requires
        0 <= i < len,
    ensures
        next_cursor_times(Some(i), len, n) == Some((i + n) % len),
    decreases n,
{
    if n == 0 {
        lemma_small_mod(i as nat, len as nat);
    } else {
        lemma_next_cursor_times(i, len, (n - 1) as nat);
        lemma_add_mod_noop(i + n - 1, 1, len);
        if len == 1 {
            lemma_mod_self_0(1);
        } else {
            lemma_small_mod(1, len as nat);
        }
    }
}

/// One step back from entry `j` ends on entry `(j - 1) mod len`.
proof fn lemma_previous_cursor_mod(j: int, len: int)
    requires
        0 <= j < len,
    ensures
        previous_cursor(Some(j), len) == Some((j - 1) % len),
{
    if j > 0 {
        lemma_small_mod((j - 1) as nat, len as nat);
    } else {
        lemma_mod_add_multiples_vanish(-1, len);
        lemma_small_mod((len - 1) as nat, len as nat);
    }
}

/// On a list of `len` entries, `n` steps back from entry `i` end on entry
/// `(i - n) mod len`.
pub proof fn lemma_previous_cursor_times(i: int, len: int, n: nat)
    requires
        0 <= i < len,
    ensures
        previous_cursor_times(Some(i), len, n) == Some((i - n) % len),
    decreases n,
{
    if n == 0 {
        lemma_small_mod(i as nat, len as nat);
    } else {
        lemma_previous_cursor_times(i, len, (n - 1) as nat);
        let j = (i - n + 1) % len;
        assert(0 <= j < len) by {
            vstd::arithmetic::div_mod::lemma_mod_bound(i - n + 1, len);
        }
        lemma_previous_cursor_mod(j, len);
        lemma_sub_mod_noop(i - n + 1, 1, len);
        if len == 1 {
            lemma_mod_self_0(1);
            vstd::arithmetic::div_mod::lemma_mod_twice(i - n + 1, len);
        } else {
            lemma_small_mod(1, len as nat);
        }
    }
}

/// On a list that is not empty, as many steps forward as the list has
/// entries bring the cursor back to where it was; so do as many steps back.
pub proof fn lemma_full_turn(cursor: Option<int>, len: int)
    requires
        len > 0,
        cursor_valid(cursor, len),
    ensures
        next_cursor_times(cursor, len, len as nat) == cursor,
        previous_cursor_times(cursor, len, len as nat) == cursor,
{
    let i = cursor->0;
    lemma_next_cursor_times(i, len, len as nat);
    lemma_previous_cursor_times(i, len, len as nat);
    lemma_mod_add_multiples_vanish(i, len);
    lemma_mod_sub_multiples_vanish(i, len);
    lemma_small_mod(i as nat, len as nat);
    assert(i + len == len + i && i - len == -len + i);
}

/// A step forward and then a step back leave the cursor where it was, and
/// so do a step back and then a step forward, wherever the cursor stands.
pub proof fn lemma_step_and_back(cursor: Option<int>, len: int)
    requires
        cursor_valid(cursor, len),
    ensures
        previous_cursor(next_cursor(cursor, len), len) == cursor,
        next_cursor(previous_cursor(cursor, len), len) == cursor,
{
    if len > 0 {
        let i = cursor->0;
        if i + 1 < len {
            lemma_small_mod((i + 1) as nat, len as nat);
        } else {
            lemma_mod_self_0(len);
        }
        if i > 0 {
            lemma_small_mod(i as nat, len as nat);
        } else {
            lemma_mod_self_0(len);
        }
    }
}

/// On an empty list the cursor is absent and stays absent, however many
/// steps are taken either way.
pub proof fn lemma_empty_list_has_no_cursor(cursor: Option<int>, n: nat)
    requires
        cursor_valid(cursor, 0),
    ensures
        cursor is None,
        next_cursor_times(cursor, 0, n) is None,
        previous_cursor_times(cursor, 0, n) is None,
    decreases n,
{
    if n > 0 {
        lemma_empty_list_has_no_cursor(cursor, (n - 1) as nat);
    }
}

/// Every step keeps the cursor fitting the list.
pub proof fn lemma_steps_keep_cursor_valid(cursor: Option<int>, len: int)
    requires
        cursor_valid(cursor, len),
    ensures
        cursor_valid(next_cursor(cursor, len), len),
        cursor_valid(previous_cursor(cursor, len), len),
{
    if len > 0 {
        vstd::arithmetic::div_mod::lemma_mod_bound(cursor->0 + 1, len);
    }
}

} // verus!
