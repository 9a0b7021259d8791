use vstd::prelude::*;
use crate::cursor::{cursor_valid, move_cursor, moved, selected_index, valid_index, Move};
use crate::task::{tasks_view, Task, TaskView, Todo, TodoView};
use crate::text::{pop_char, push_char};

verus! {

/// The mode the interface is in; exactly one is active at a time.
#[derive(Clone, Copy, Debug, PartialEq, Eq, Structural)]
pub enum CurrentScreen {
    Main,
    Adding,
    Sidebar,
    Editing,
    Exiting,
    AddingProj,
}

/// A key, as delivered by the input layer.
#[derive(Clone, Copy, Debug, PartialEq, Eq, Structural)]
pub enum Key {
    Char(char),
    Up,
    Down,
    Left,
    Right,
    Enter,
    Backspace,
    Esc,
    Other,
}

/// What the event loop is to do after an event.
#[derive(Clone, Copy, Debug, PartialEq, Eq, Structural)]
pub enum Signal {
    /// Keep running.
    Continue,
    /// Persist the tasks, then stop.
    Save,
    /// Stop without persisting.
    Quit,
}

/// The application state: every event mutates it, the renderer reads it.
pub struct App {
    pub running: bool,
    pub current_screen: CurrentScreen,
    pub input_buffer: String,
    /// The task lists.
    pub todo: Vec<Todo>,
    /// Index of the list whose tasks are shown, if any.
    pub current_todo: Option<usize>,
    /// Selection in the tasks shown.
    pub task_cursor: Option<usize>,
    /// The task being edited, while on the editing screen.
    pub editing_task_at: Option<usize>,
    /// Selection in the list of lists.
    pub sidebar_cursor: Option<usize>,
}

/// The mathematical value of an [`App`].
pub ghost struct AppView {
    pub running: bool,
    pub screen: CurrentScreen,
    pub input: Seq<char>,
    pub lists: Seq<TodoView>,
    pub current: Option<usize>,
    pub task_cursor: Option<usize>,
    pub editing: Option<usize>,
    pub sidebar_cursor: Option<usize>,
}

/// The values of a sequence of lists.
pub open spec fn lists_view(ls: Seq<Todo>) -> Seq<TodoView> {
    ls.map_values(|l: Todo| l@)
}

impl View for App {
    type V = AppView;

    open spec fn view(&self) -> AppView {
        AppView {
            running: self.running,
            screen: self.current_screen,
            input: self.input_buffer@,
            lists: lists_view(self.todo@),
            current: self.current_todo,
            task_cursor: self.task_cursor,
            editing: self.editing_task_at,
            sidebar_cursor: self.sidebar_cursor,
        }
    }
}

impl AppView {
    /// The index of the shown list, if it names one.
    pub open spec fn current_index(self) -> Option<usize> {
        selected_index(self.current, self.lists.len())
    }

    /// The tasks shown: those of the current list, or none.
    pub open spec fn visible(self) -> Seq<TaskView> {
        match self.current_index() {
            Some(c) => self.lists[c as int].tasks,
            None => Seq::empty(),
        }
    }

    /// The task under the cursor, if the cursor is valid.
    pub open spec fn selected(self) -> Option<usize> {
        selected_index(self.task_cursor, self.visible().len())
    }

    /// The state with the tasks of the current list replaced.
    pub open spec fn with_visible(self, ts: Seq<TaskView>) -> AppView {
        match self.current_index() {
            Some(c) => AppView {
                lists: self.lists.update(
                    c as int,
                    TodoView { title: self.lists[c as int].title, tasks: ts },
                ),
                ..self
            },
            None => self,
        }
    }

    /// The invariant that holds between events.
    pub open spec fn wf(self) -> bool {
        &&& cursor_valid(self.task_cursor, self.visible().len())
        &&& cursor_valid(self.sidebar_cursor, self.lists.len())
        &&& (self.editing is Some <==> self.screen == CurrentScreen::Editing)
        &&& cursor_valid(self.editing, self.visible().len())
        &&& (self.screen != CurrentScreen::Adding && self.screen != CurrentScreen::AddingProj
            ==> self.input.len() == 0)
    }
}

/// The text buffer after typing `k`: a character is appended, Backspace removes
/// the last one.
pub open spec fn typed(s: Seq<char>, k: Key) -> Seq<char> {
    match k {
        Key::Char(c) => s.push(c),
        Key::Backspace => if s.len() > 0 {
            s.drop_last()
        } else {
            s
        },
        _ => s,
    }
}

/// The cursor movement bound to an arrow key.
pub open spec fn arrow_move(k: Key) -> Option<Move> {
    match k {
        Key::Up => Some(Move::Prev),
        Key::Down => Some(Move::Next),
        Key::Left => Some(Move::First),
        Key::Right => Some(Move::Last),
        _ => None,
    }
}

/// The cursor that remains after the task at `i` was removed from a sequence
/// that now has `len` tasks.
pub open spec fn cursor_after_delete(i: usize, len: nat) -> Option<usize> {
    if i < len {
        Some(i)
    } else if len == 0 {
        None
    } else {
        Some((len - 1) as usize)
    }
}

/// Toggles the completion flag of the task at `i`.
pub open spec fn toggled(ts: Seq<TaskView>, i: int) -> Seq<TaskView> {
    ts.update(i, TaskView { done: !ts[i].done, ..ts[i] })
}

/// Replaces the description of the task at `i` after typing `k`.
pub open spec fn edited(ts: Seq<TaskView>, i: int, k: Key) -> Seq<TaskView> {
    ts.update(i, TaskView { desc: typed(ts[i].desc, k), ..ts[i] })
}

/// Removes the selected task `i` and clamps the cursor.
pub open spec fn deleted(v: AppView, i: usize) -> AppView {
    let ts = v.visible().remove(i as int);
    AppView { task_cursor: cursor_after_delete(i, ts.len()), ..v.with_visible(ts) }
}

/// Commits the input buffer as a new task of the current list.
pub open spec fn committed_task(v: AppView) -> AppView {
    match v.current_index() {
        Some(c) => AppView {
            screen: CurrentScreen::Main,
            input: Seq::empty(),
            ..v.with_visible(v.visible().push(TaskView { done: false, desc: v.input }))
        },
        None => v,
    }
}

/// Commits the input buffer as the title of a new, empty list.
pub open spec fn committed_list(v: AppView) -> AppView {
    AppView {
        screen: CurrentScreen::Sidebar,
        input: Seq::empty(),
        lists: v.lists.push(TodoView { title: v.input, tasks: Seq::empty() }),
        ..v
    }
}

/// The state after key `k` on the main screen.
pub open spec fn step_main(v: AppView, k: Key) -> AppView {
    match k {
        Key::Char('a') => AppView { screen: CurrentScreen::Adding, input: Seq::empty(), ..v },
        Key::Char('b') => AppView { screen: CurrentScreen::Sidebar, ..v },
        Key::Char('q') => AppView { screen: CurrentScreen::Exiting, ..v },
        Key::Char('e') => match v.selected() {
            Some(i) => AppView { screen: CurrentScreen::Editing, editing: Some(i), ..v },
            None => v,
        },
        Key::Char('d') => match v.selected() {
            Some(i) => deleted(v, i),
            None => v,
        },
        Key::Enter => match v.selected() {
            Some(i) => v.with_visible(toggled(v.visible(), i as int)),
            None => v,
        },
        _ => match arrow_move(k) {
            Some(m) => AppView { task_cursor: moved(v.task_cursor, v.visible().len(), m), ..v },
            None => v,
        },
    }
}

/// The state after key `k` on the list of lists.
pub open spec fn step_sidebar(v: AppView, k: Key) -> AppView {
    match k {
        Key::Char('a') => AppView { screen: CurrentScreen::AddingProj, input: Seq::empty(), ..v },
        Key::Char('b') => AppView { screen: CurrentScreen::Main, ..v },
        _ => match arrow_move(k) {
            Some(m) => AppView { sidebar_cursor: moved(v.sidebar_cursor, v.lists.len(), m), ..v },
            None => v,
        },
    }
}

/// The state after key `k` while a task is typed in.
pub open spec fn step_adding(v: AppView, k: Key) -> AppView {
    match k {
        Key::Enter => committed_task(v),
        Key::Esc => AppView { screen: CurrentScreen::Main, input: Seq::empty(), ..v },
        _ => AppView { input: typed(v.input, k), ..v },
    }
}

/// The state after key `k` while a list title is typed in.
pub open spec fn step_adding_list(v: AppView, k: Key) -> AppView {
    match k {
        Key::Enter => committed_list(v),
        Key::Esc => AppView { screen: CurrentScreen::Sidebar, input: Seq::empty(), ..v },
        _ => AppView { input: typed(v.input, k), ..v },
    }
}

/// The state after key `k` while the description of a task is edited.
pub open spec fn step_editing(v: AppView, k: Key) -> AppView {
    match k {
        Key::Esc => AppView { screen: CurrentScreen::Main, editing: None, ..v },
        Key::Char(_) | Key::Backspace => match selected_index(v.editing, v.visible().len()) {
            Some(i) => v.with_visible(edited(v.visible(), i as int, k)),
            None => v,
        },
        _ => v,
    }
}

/// The state and signal after key `k` on the exit prompt.
pub open spec fn step_exiting(v: AppView, k: Key) -> (AppView, Signal) {
    match k {
        Key::Char('y') => (AppView { running: false, ..v }, Signal::Save),
        Key::Char('n') | Key::Char('q') => (AppView { running: false, ..v }, Signal::Quit),
        _ => (v, Signal::Continue),
    }
}

/// The state and signal after one key event; a release changes nothing.
pub open spec fn step(v: AppView, k: Key, pressed: bool) -> (AppView, Signal) {
    if !pressed {
        (v, Signal::Continue)
    } else {
        match v.screen {
            CurrentScreen::Main => (step_main(v, k), Signal::Continue),
            CurrentScreen::Sidebar => (step_sidebar(v, k), Signal::Continue),
            CurrentScreen::Adding => (step_adding(v, k), Signal::Continue),
            CurrentScreen::AddingProj => (step_adding_list(v, k), Signal::Continue),
            CurrentScreen::Editing => (step_editing(v, k), Signal::Continue),
            CurrentScreen::Exiting => step_exiting(v, k),
        }
    }
}

proof fn lemma_lists_update(ls: Seq<Todo>, c: int, l: Todo)
    requires
        0 <= c < ls.len(),
    ensures
        lists_view(ls.update(c, l)) == lists_view(ls).update(c, l@),
{
    assert(lists_view(ls.update(c, l)) =~= lists_view(ls).update(c, l@));
}

impl App {
    /// A fresh state on the main screen, with no lists at all.
    pub fn new() -> (r: App)
        ensures
            r@ == (AppView {
                running: true,
                screen: CurrentScreen::Main,
                input: Seq::empty(),
                lists: Seq::empty(),
                current: None,
                task_cursor: None,
                editing: None,
                sidebar_cursor: None,
            }),
            r@.wf(),
    {
        let r = App {
            running: true,
            current_screen: CurrentScreen::Main,
            input_buffer: String::new(),
            todo: Vec::new(),
            current_todo: None,
            task_cursor: None,
            editing_task_at: None,
            sidebar_cursor: None,
        };
        assert(r@.lists =~= Seq::<TodoView>::empty());
        r
    }

    /// A fresh state on the main screen that shows one list, holding `tasks`,
    /// with the first task and the list selected.
    pub fn with_tasks(title: String, tasks: Vec<Task>) -> (r: App)
        ensures
            r@ == (AppView {
                running: true,
                screen: CurrentScreen::Main,
                input: Seq::empty(),
                lists: seq![TodoView { title: title@, tasks: tasks_view(tasks@) }],
                current: Some(0),
                task_cursor: moved(None, tasks@.len(), Move::First),
                editing: None,
                sidebar_cursor: Some(0),
            }),
            r@.wf(),
    {
        let cursor = move_cursor(None, tasks.len(), Move::First);
        let mut lists: Vec<Todo> = Vec::new();
        let ghost tv = tasks_view(tasks@);
        let list = Todo { title, tasks };
        lists.push(list);
        let r = App {
            running: true,
            current_screen: CurrentScreen::Main,
            input_buffer: String::new(),
            todo: lists,
            current_todo: Some(0),
            task_cursor: cursor,
            editing_task_at: None,
            sidebar_cursor: Some(0),
        };
        assert(r@.lists =~= seq![TodoView { title: title@, tasks: tv }]);
        r
    }

    /// The index of the list whose tasks are shown, if it names one.
    fn current_index(&self) -> (r: Option<usize>)
        ensures
            r == self@.current_index(),
    {
        valid_index(self.current_todo, self.todo.len())
    }

    /// Flips the completion flag of the selected task, if any.
    fn toggle_selected(&mut self)
        requires
            old(self)@.wf(),
        ensures
            final(self)@ == step_main(old(self)@, Key::Enter),
    {
        if let Some(c) = self.current_index() {
            if let Some(i) = valid_index(self.task_cursor, self.todo[c].tasks.len()) {
                let ghost old_ls = self.todo@;
                let done = self.todo[c].tasks[i].done;
                self.todo[c].tasks[i].done = !done;
                proof {
                    let nl = self.todo@[c as int];
                    assert(self.todo@ =~= old_ls.update(c as int, nl));
                    lemma_lists_update(old_ls, c as int, nl);
                    assert(nl@.tasks =~= toggled(old_ls[c as int]@.tasks, i as int));
                    assert(self@ =~= step_main(old(self)@, Key::Enter));
                }
            }
        }
    }

    /// The number of tasks shown.
    fn visible_len(&self) -> (r: usize)
        ensures
            r == self@.visible().len(),
    {
        match self.current_index() {
            Some(c) => self.todo[c].tasks.len(),
            None => 0,
        }
    }

    /// Removes the selected task, if any, and keeps the cursor within the tasks left.
    fn delete_selected(&mut self)
        requires
            old(self)@.wf(),
        ensures
            final(self)@ == step_main(old(self)@, Key::Char('d')),
    {
        if let Some(c) = self.current_index() {
            if let Some(i) = valid_index(self.task_cursor, self.todo[c].tasks.len()) {
                let ghost old_ls = self.todo@;
                self.todo[c].tasks.remove(i);
                let len = self.todo[c].tasks.len();
                self.task_cursor = if i < len {
                    Some(i)
                } else if len == 0 {
                    None
                } else {
                    Some(len - 1)
                };
                proof {
                    let nl = self.todo@[c as int];
                    assert(self.todo@ =~= old_ls.update(c as int, nl));
                    lemma_lists_update(old_ls, c as int, nl);
                    assert(nl@.tasks =~= old_ls[c as int]@.tasks.remove(i as int));
                    assert(self@ =~= step_main(old(self)@, Key::Char('d')));
                }
            }
        }
    }

    /// Applies a typed character or a Backspace to the description of the task
    /// being edited.
    fn edit_selected(&mut self, k: Key)
        requires
            old(self)@.wf(),
            k is Char || k is Backspace,
        ensures
            final(self)@ == step_editing(old(self)@, k),
    {
        if let Some(c) = self.current_index() {
            if let Some(i) = valid_index(self.editing_task_at, self.todo[c].tasks.len()) {
                let ghost old_ls = self.todo@;
                match k {
                    Key::Char(ch) => push_char(&mut self.todo[c].tasks[i].desc, ch),
                    _ => {
                        pop_char(&mut self.todo[c].tasks[i].desc);
                    },
                }
                proof {
                    let nl = self.todo@[c as int];
                    assert(self.todo@ =~= old_ls.update(c as int, nl));
                    lemma_lists_update(old_ls, c as int, nl);
                    assert(nl@.tasks =~= edited(old_ls[c as int]@.tasks, i as int, k));
                    assert(self@ =~= step_editing(old(self)@, k));
                }
            }
        }
    }

    /// Applies a typed character or a Backspace to the input buffer.
    fn type_into_buffer(&mut self, k: Key)
        ensures
            final(self)@ == (AppView { input: typed(old(self)@.input, k), ..old(self)@ }),
    {
        match k {
            Key::Char(ch) => push_char(&mut self.input_buffer, ch),
            Key::Backspace => {
                pop_char(&mut self.input_buffer);
            },
            _ => {},
        }
    }

    /// Commits the input buffer as a new, empty list and returns to the list of lists.
    fn save_list_value(&mut self)
        ensures
            final(self)@ == committed_list(old(self)@),
    {
        let list = Todo::new(self.input_buffer.clone());
        let ghost old_ls = self.todo@;
        self.todo.push(list);
        self.input_buffer = String::new();
        self.current_screen = CurrentScreen::Sidebar;
        proof {
            assert(lists_view(self.todo@) =~= lists_view(old_ls).push(list@));
            assert(self@ =~= committed_list(old(self)@));
        }
    }

    /// Commits the input buffer as a new task at the end of the current list,
    /// clears the buffer and returns to the main screen. Without a current list
    /// nothing changes.
    pub fn save_task_value(&mut self)
        ensures
            final(self)@ == committed_task(old(self)@),
    {
        let new_task = Task::new(self.input_buffer.clone());
        if let Some(c) = self.current_index() {
            let ghost old_ls = self.todo@;
            self.todo[c].tasks.push(new_task);
            self.input_buffer = String::new();
            self.current_screen = CurrentScreen::Main;
            proof {
                let nl = self.todo@[c as int];
                assert(self.todo@ =~= old_ls.update(c as int, nl));
                lemma_lists_update(old_ls, c as int, nl);
                assert(nl@.tasks =~= old_ls[c as int]@.tasks.push(new_task@));
                assert(self@ =~= committed_task(old(self)@));
            }
        }
    }

    fn handle_main(&mut self, k: Key)
        requires
            old(self)@.wf(),
        ensures
            final(self)@ == step_main(old(self)@, k),
    {
        match k {
            Key::Char('a') => {
                self.current_screen = CurrentScreen::Adding;
                self.input_buffer = String::new();
            },
            Key::Char('b') => {
                self.current_screen = CurrentScreen::Sidebar;
            },
            Key::Char('q') => {
                self.current_screen = CurrentScreen::Exiting;
            },
            Key::Char('e') => {
                if let Some(i) = self.list_item_available() {
                    self.current_screen = CurrentScreen::Editing;
                    self.editing_task_at = Some(i);
                }
            },
            Key::Char('d') => self.delete_selected(),
            Key::Enter => self.toggle_selected(),
            Key::Up => {
                self.task_cursor = move_cursor(self.task_cursor, self.visible_len(), Move::Prev);
            },
            Key::Down => {
                self.task_cursor = move_cursor(self.task_cursor, self.visible_len(), Move::Next);
            },
            Key::Left => {
                self.task_cursor = move_cursor(self.task_cursor, self.visible_len(), Move::First);
            },
            Key::Right => {
                self.task_cursor = move_cursor(self.task_cursor, self.visible_len(), Move::Last);
            },
            _ => {},
        }
    }

    fn handle_sidebar(&mut self, k: Key)
        ensures
            final(self)@ == step_sidebar(old(self)@, k),
    {
        let n = self.todo.len();
        match k {
            Key::Char('a') => {
                self.current_screen = CurrentScreen::AddingProj;
                self.input_buffer = String::new();
            },
            Key::Char('b') => {
                self.current_screen = CurrentScreen::Main;
            },
            Key::Up => {
                self.sidebar_cursor = move_cursor(self.sidebar_cursor, n, Move::Prev);
            },
            Key::Down => {
                self.sidebar_cursor = move_cursor(self.sidebar_cursor, n, Move::Next);
            },
            Key::Left => {
                self.sidebar_cursor = move_cursor(self.sidebar_cursor, n, Move::First);
            },
            Key::Right => {
                self.sidebar_cursor = move_cursor(self.sidebar_cursor, n, Move::Last);
            },
            _ => {},
        }
    }

    /// Handles one key event and says whether the event loop goes on, saves and
    /// stops, or stops without saving. Release events change nothing.
    pub fn handle_key(&mut self, key: Key, pressed: bool) -> (r: Signal)
        requires
            old(self)@.wf(),
        ensures
            (final(self)@, r) == step(old(self)@, key, pressed),
            final(self)@.wf(),
    {
        proof {
            lemma_step_keeps_wf(self@, key, pressed);
        }
        if !pressed {
            return Signal::Continue;
        }
        match self.current_screen {
            CurrentScreen::Main => {
                self.handle_main(key);
                Signal::Continue
            },
            CurrentScreen::Sidebar => {
                self.handle_sidebar(key);
                Signal::Continue
            },
            CurrentScreen::Adding => {
                match key {
                    Key::Enter => self.save_task_value(),
                    Key::Esc => {
                        self.current_screen = CurrentScreen::Main;
                        self.input_buffer = String::new();
                    },
                    _ => self.type_into_buffer(key),
                }
                Signal::Continue
            },
            CurrentScreen::AddingProj => {
                match key {
                    Key::Enter => self.save_list_value(),
                    Key::Esc => {
                        self.current_screen = CurrentScreen::Sidebar;
                        self.input_buffer = String::new();
                    },
                    _ => self.type_into_buffer(key),
                }
                Signal::Continue
            },
            CurrentScreen::Editing => {
                match key {
                    Key::Esc => {
                        self.current_screen = CurrentScreen::Main;
                        self.editing_task_at = None;
                    },
                    Key::Char(_) | Key::Backspace => self.edit_selected(key),
                    _ => {},
                }
                Signal::Continue
            },
            CurrentScreen::Exiting => match key {
                Key::Char('y') => {
                    self.running = false;
                    Signal::Save
                },
                Key::Char('n') | Key::Char('q') => {
                    self.running = false;
                    Signal::Quit
                },
                _ => Signal::Continue,
            },
        }
    }

    /// The index of the selected task, if the cursor selects one of the tasks shown.
    pub fn list_item_available(&mut self) -> (r: Option<usize>)
        ensures
            *final(self) == *old(self),
            r == old(self)@.selected(),
    {
        valid_index(self.task_cursor, self.visible_len())
    }

    /// The tasks of the current list, if there is one.
    pub fn todo_tasks_available(&self) -> (r: Option<&Vec<Task>>)
        ensures
            match self@.current_index() {
                Some(c) => r is Some && tasks_view(r->0@) == self@.visible(),
                None => r is None,
            },
    {
        match self.current_index() {
            Some(c) => Some(&self.todo[c].tasks),
            None => None,
        }
    }
}

proof fn lemma_with_visible(v: AppView, ts: Seq<TaskView>)
    requires
        v.current_index() is Some,
    ensures
        v.with_visible(ts).visible() == ts,
        v.with_visible(ts).lists.len() == v.lists.len(),
        v.with_visible(ts).current_index() == v.current_index(),
{
}

/// Every event keeps the state well formed: in particular the task cursor stays
/// `None` or below the number of tasks shown, whatever keys are pressed.
pub proof fn lemma_step_keeps_wf(v: AppView, k: Key, pressed: bool)
    requires
        v.wf(),
    ensures
        step(v, k, pressed).0.wf(),
{
}

/// The state and the signals after a sequence of key events, each a key and
/// whether it was pressed.
pub open spec fn run(v: AppView, events: Seq<(Key, bool)>) -> (AppView, Seq<Signal>)
    decreases events.len(),
{
    if events.len() == 0 {
        (v, Seq::empty())
    } else {
        let (w, sig) = step(v, events[0].0, events[0].1);
        let (u, sigs) = run(w, events.drop_first());
        (u, seq![sig] + sigs)
    }
}

/// Whatever keys arrive, the state stays well formed: the task cursor is `None`
/// or below the number of tasks shown, and the list cursor below the number of
/// lists.
pub proof fn lemma_run_keeps_wf(v: AppView, events: Seq<(Key, bool)>)
    requires
        v.wf(),
    ensures
        run(v, events).0.wf(),
        cursor_valid(run(v, events).0.task_cursor, run(v, events).0.visible().len()),
    decreases events.len(),
{
    if events.len() > 0 {
        lemma_step_keeps_wf(v, events[0].0, events[0].1);
        lemma_run_keeps_wf(step(v, events[0].0, events[0].1).0, events.drop_first());
    }
}

/// Deleting the last task shown moves the cursor onto the new last task, or to
/// no selection when no task is left: never past the end.
pub proof fn lemma_delete_last_clamps_cursor(v: AppView)
    requires
        v.wf(),
        v.screen == CurrentScreen::Main,
        v.task_cursor is Some,
        v.task_cursor->0 + 1 == v.visible().len(),
    ensures
        ({
            let w = step(v, Key::Char('d'), true).0;
            &&& w.visible() == v.visible().drop_last()
            &&& (w.task_cursor is None <==> w.visible().len() == 0)
            &&& (w.task_cursor is Some ==> w.task_cursor->0 + 1 == w.visible().len())
            &&& cursor_valid(w.task_cursor, w.visible().len())
        }),
{
    let i = v.task_cursor->0;
    let w = step(v, Key::Char('d'), true).0;
    let ts = v.visible().remove(i as int);
    assert(v.selected() == Some(i));
    assert(w == deleted(v, i));
    lemma_with_visible(v, ts);
    assert(w.lists == v.with_visible(ts).lists);
    assert(w.visible() == ts);
    assert(ts =~= v.visible().drop_last());
}

/// Pressing Enter twice on the main screen gives back the state it started from:
/// the selected task's flag is flipped twice.
pub proof fn lemma_toggle_twice(v: AppView)
    requires
        v.wf(),
        v.screen == CurrentScreen::Main,
    ensures
        step(step(v, Key::Enter, true).0, Key::Enter, true).0 == v,
{
    if let Some(i) = v.selected() {
        let ts = toggled(v.visible(), i as int);
        let w = v.with_visible(ts);
        lemma_with_visible(v, ts);
        let ts2 = toggled(ts, i as int);
        assert(ts2 =~= v.visible());
        lemma_with_visible(w, ts2);
        assert(w.with_visible(ts2).lists =~= v.lists);
    }
}

/// On the main screen, `q` then `n` ends the session without asking to save,
/// and leaves the tasks as they were.
pub proof fn lemma_quit_without_saving(v: AppView)
    requires
        v.screen == CurrentScreen::Main,
    ensures
        run(v, seq![(Key::Char('q'), true), (Key::Char('n'), true)]).1 == seq![
            Signal::Continue,
            Signal::Quit,
        ],
        run(v, seq![(Key::Char('q'), true), (Key::Char('n'), true)]).0.lists == v.lists,
        !run(v, seq![(Key::Char('q'), true), (Key::Char('n'), true)]).0.running,
{
    let es = seq![(Key::Char('q'), true), (Key::Char('n'), true)];
    let w = step(v, Key::Char('q'), true).0;
    let u = step(w, Key::Char('n'), true).0;
    assert(es.drop_first() =~= seq![(Key::Char('n'), true)]);
    assert(es.drop_first().drop_first() =~= Seq::<(Key, bool)>::empty());
    assert(run(u, es.drop_first().drop_first()) == (u, Seq::<Signal>::empty()));
    assert(run(w, es.drop_first()) == (u, seq![Signal::Quit] + Seq::<Signal>::empty()));
    assert(run(v, es).1 =~= seq![Signal::Continue, Signal::Quit]);
}

/// With no task shown, Enter, Up, Down, `e` and `d` on the main screen change
/// nothing.
pub proof fn lemma_empty_main_keys_do_nothing(v: AppView, k: Key)
    requires
        v.wf(),
        v.screen == CurrentScreen::Main,
        v.visible().len() == 0,
        k == Key::Enter || k == Key::Up || k == Key::Down || k == Key::Char('e') || k
            == Key::Char('d'),
    ensures
        step(v, k, true) == (v, Signal::Continue),
{
}

/// Leaving the editing screen with Esc returns to the main screen and leaves
/// every task as it was.
pub proof fn lemma_cancel_edit_keeps_tasks(v: AppView)
    requires
        v.wf(),
        v.screen == CurrentScreen::Editing,
    ensures
        step(v, Key::Esc, true).0.screen == CurrentScreen::Main,
        step(v, Key::Esc, true).0.editing is None,
        step(v, Key::Esc, true).0.lists == v.lists,
        step(v, Key::Esc, true).0.visible() == v.visible(),
{
}

} // verus!
