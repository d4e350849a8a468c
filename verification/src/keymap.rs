//! The keymap: one table, two consumers.
//!
//! [`keymap`] is the only place a key is bound to behaviour. The key router dispatches
//! through it and the help modal renders it, so the two cannot drift apart.
//!
//! [`Action`] is the stable name in the middle: rebinding a key is a change to the
//! left-hand column, never to what an action does.
use crate::text::{char_from_ascii, chars_of, decimal, decimal_of, push_all, string_of};
use vstd::prelude::*;

verus! {

/// Which key, independent of any terminal library.
#[derive(Debug, Clone, Copy, PartialEq, Eq, Structural)]
pub enum KeyCode {
    Backspace,
    Enter,
    Left,
    Right,
    Up,
    Down,
    Home,
    End,
    PageUp,
    PageDown,
    Tab,
    BackTab,
    Delete,
    Insert,
    F(u8),
    Char(char),
    Null,
    Esc,
    CapsLock,
    ScrollLock,
    NumLock,
    PrintScreen,
    Pause,
    Menu,
    KeypadBegin,
}

/// The modifier keys held with a key.
#[derive(Debug, Clone, Copy, PartialEq, Eq, Structural)]
pub struct Modifiers {
    pub shift: bool,
    pub control: bool,
    pub alt: bool,
    pub super_key: bool,
    pub hyper: bool,
    pub meta: bool,
}

impl Modifiers {
    /// No modifier at all.
    pub fn none() -> (m: Self)
        ensures
            m == no_mods(),
    {
        Modifiers { shift: false, control: false, alt: false, super_key: false, hyper: false, meta: false }
    }

    /// Shift alone.
    pub fn shift() -> (m: Self)
        ensures
            m == (Modifiers { shift: true, ..no_mods() }),
    {
        Modifiers { shift: true, ..Modifiers::none() }
    }

    /// Control alone.
    pub fn control() -> (m: Self)
        ensures
            m == (Modifiers { control: true, ..no_mods() }),
    {
        Modifiers { control: true, ..Modifiers::none() }
    }

    /// Alt alone.
    pub fn alt() -> (m: Self)
        ensures
            m == (Modifiers { alt: true, ..no_mods() }),
    {
        Modifiers { alt: true, ..Modifiers::none() }
    }
}

/// No modifier held.
pub open spec fn no_mods() -> Modifiers {
    Modifiers { shift: false, control: false, alt: false, super_key: false, hyper: false, meta: false }
}

/// Whether a terminal event is a press, a repeat or a release.
#[derive(Debug, Clone, Copy, PartialEq, Eq, Structural)]
pub enum KeyEventKind {
    Press,
    Repeat,
    Release,
}

/// A key event as a terminal reports it.
#[derive(Debug, Clone, Copy, PartialEq, Eq, Structural)]
pub struct KeyEvent {
    pub code: KeyCode,
    pub modifiers: Modifiers,
    pub kind: KeyEventKind,
}

impl KeyEvent {
    /// A press of `code` with `modifiers`.
    pub fn new(code: KeyCode, modifiers: Modifiers) -> (e: Self)
        ensures
            e == (KeyEvent { code, modifiers, kind: KeyEventKind::Press }),
    {
        KeyEvent { code, modifiers, kind: KeyEventKind::Press }
    }

    /// An event of the given kind.
    pub fn new_with_kind(code: KeyCode, modifiers: Modifiers, kind: KeyEventKind) -> (e: Self)
        ensures
            e == (KeyEvent { code, modifiers, kind }),
    {
        KeyEvent { code, modifiers, kind }
    }
}

/// One key press, normalised.
///
/// Terminals report `Shift`+`h` as `Char('H')` *with* the shift modifier set, so a table
/// written as `Key::char('H')` would never match. [`Key::from_event`] drops the redundant
/// modifier and keeps the case, making the character the single source of truth.
#[derive(Debug, Clone, Copy, PartialEq, Eq, Structural)]
pub struct Key {
    pub code: KeyCode,
    pub mods: Modifiers,
}

/// Whether `c` is uppercase by Unicode's `Uppercase` property.
pub uninterp spec fn uppercase(c: char) -> bool;

/// `char::is_uppercase`, whose answer depends on the character alone.
#[verifier::external_body]
fn is_uppercase(c: char) -> (r: bool)
    ensures
        r == uppercase(c),
{
    c.is_uppercase()
}

/// What [`Key::from_event`] makes of an event.
pub open spec fn normalised(event: KeyEvent) -> Option<Key> {
    if event.kind == KeyEventKind::Release {
        None
    } else {
        let mods = match event.code {
            KeyCode::Char(c) => if uppercase(c) {
                Modifiers { shift: false, ..event.modifiers }
            } else {
                event.modifiers
            },
            _ => event.modifiers,
        };
        Some(Key { code: event.code, mods })
    }
}

impl Key {
    /// A key with no modifiers.
    pub fn plain(code: KeyCode) -> (k: Self)
        ensures
            k == (Key { code, mods: no_mods() }),
    {
        Key { code, mods: Modifiers::none() }
    }

    /// An unmodified character.
    pub fn char(c: char) -> (k: Self)
        ensures
            k == (Key { code: KeyCode::Char(c), mods: no_mods() }),
    {
        Key::plain(KeyCode::Char(c))
    }

    /// A control chord such as `Ctrl-d`.
    pub fn ctrl(c: char) -> (k: Self)
        ensures
            k == (Key { code: KeyCode::Char(c), mods: Modifiers { control: true, ..no_mods() } }),
    {
        Key { code: KeyCode::Char(c), mods: Modifiers::control() }
    }

    /// Normalise a terminal event into a table-comparable key.
    ///
    /// `None` for a key *release*: it carries the same code as its press, so acting on
    /// both would double every motion on terminals that report the kinds separately.
    pub fn from_event(event: KeyEvent) -> (k: Option<Self>)
        ensures
            k == normalised(event),
    {
        if event.kind == KeyEventKind::Release {
            return None;
        }
        let mut mods = event.modifiers;
        if let KeyCode::Char(c) = event.code {
            if is_uppercase(c) {
                mods.shift = false;
            }
        }
        Some(Key { code: event.code, mods })
    }

    /// The key as help prints it: `C-d`, `Space`, `S-Tab`, `↓`.
    pub fn text(&self) -> (s: String)
        ensures
            s@ == key_text(*self),
    {
        let v = key_chars(*self);
        string_of(v.as_slice())
    }
}

/// The name a key code is printed under, after any modifier prefix.
pub open spec fn code_text(code: KeyCode) -> Seq<char> {
    match code {
        KeyCode::Char(' ') => "Space"@,
        KeyCode::Char(c) => seq![c],
        KeyCode::Enter => "Enter"@,
        KeyCode::Esc => "Esc"@,
        KeyCode::Tab => "Tab"@,
        KeyCode::BackTab => "S-Tab"@,
        KeyCode::Left => "←"@,
        KeyCode::Right => "→"@,
        KeyCode::Up => "↑"@,
        KeyCode::Down => "↓"@,
        KeyCode::Home => "Home"@,
        KeyCode::End => "End"@,
        KeyCode::PageUp => "PgUp"@,
        KeyCode::PageDown => "PgDn"@,
        KeyCode::Backspace => "Backspace"@,
        KeyCode::Delete => "Delete"@,
        KeyCode::Insert => "Insert"@,
        KeyCode::F(n) => "F("@ + decimal(n as nat) + ")"@,
        KeyCode::Null => "Null"@,
        KeyCode::CapsLock => "CapsLock"@,
        KeyCode::ScrollLock => "ScrollLock"@,
        KeyCode::NumLock => "NumLock"@,
        KeyCode::PrintScreen => "PrintScreen"@,
        KeyCode::Pause => "Pause"@,
        KeyCode::Menu => "Menu"@,
        KeyCode::KeypadBegin => "KeypadBegin"@,
    }
}

/// A key as help prints it: control, then alt, then the code.
pub open spec fn key_text(key: Key) -> Seq<char> {
    (if key.mods.control { "C-"@ } else { Seq::empty() }) + (if key.mods.alt {
        "M-"@
    } else {
        Seq::empty()
    }) + code_text(key.code)
}

fn code_chars(code: KeyCode) -> (out: Vec<char>)
    ensures
        out@ == code_text(code),
{
    match code {
        KeyCode::Char(c) => {
            if c == ' ' {
                chars_of("Space")
            } else {
                let mut v = Vec::new();
                v.push(c);
                proof {
                    assert(v@ =~= seq![c]);
                }
                v
            }
        },
        KeyCode::Enter => chars_of("Enter"),
        KeyCode::Esc => chars_of("Esc"),
        KeyCode::Tab => chars_of("Tab"),
        KeyCode::BackTab => chars_of("S-Tab"),
        KeyCode::Left => chars_of("←"),
        KeyCode::Right => chars_of("→"),
        KeyCode::Up => chars_of("↑"),
        KeyCode::Down => chars_of("↓"),
        KeyCode::Home => chars_of("Home"),
        KeyCode::End => chars_of("End"),
        KeyCode::PageUp => chars_of("PgUp"),
        KeyCode::PageDown => chars_of("PgDn"),
        KeyCode::Backspace => chars_of("Backspace"),
        KeyCode::Delete => chars_of("Delete"),
        KeyCode::Insert => chars_of("Insert"),
        KeyCode::F(n) => {
            let mut v = chars_of("F(");
            let d = decimal_of(n as u64);
            push_all(&mut v, d.as_slice());
            let close = chars_of(")");
            push_all(&mut v, close.as_slice());
            v
        },
        KeyCode::Null => chars_of("Null"),
        KeyCode::CapsLock => chars_of("CapsLock"),
        KeyCode::ScrollLock => chars_of("ScrollLock"),
        KeyCode::NumLock => chars_of("NumLock"),
        KeyCode::PrintScreen => chars_of("PrintScreen"),
        KeyCode::Pause => chars_of("Pause"),
        KeyCode::Menu => chars_of("Menu"),
        KeyCode::KeypadBegin => chars_of("KeypadBegin"),
    }
}

fn key_chars(key: Key) -> (out: Vec<char>)
    ensures
        out@ == key_text(key),
{
    let mut out: Vec<char> = Vec::new();
    if key.mods.control {
        let p = chars_of("C-");
        push_all(&mut out, p.as_slice());
    }
    let ghost after_control = out@;
    if key.mods.alt {
        let p = chars_of("M-");
        push_all(&mut out, p.as_slice());
    }
    let name = code_chars(key.code);
    push_all(&mut out, name.as_slice());
    proof {
        assert(out@ =~= key_text(key));
    }
    out
}

/// Where a binding applies.
#[derive(Debug, Clone, Copy, PartialEq, Eq, Structural)]
pub enum Context {
    /// Wherever the task screen is showing.
    Global,
    /// Only while the sidebar has focus.
    Sidebar,
    /// Only while the task list has focus.
    List,
}

impl Default for Context {
    /// `Global`, which is what a context defaults to.
    fn default() -> (c: Self)
        ensures
            c == Context::Global,
    {
        Context::Global
    }
}

impl Context {
}

/// How the help modal groups a binding.
#[derive(Debug, Clone, Copy, PartialEq, Eq, Structural)]
pub enum Group {
    Navigation,
    Task,
    View,
    Application,
}

/// The heading help prints over a group.
pub open spec fn heading_text(group: Group) -> Seq<char> {
    match group {
        Group::Navigation => "Navigation"@,
        Group::Task => "Tasks"@,
        Group::View => "View"@,
        Group::Application => "Application"@,
    }
}

/// Every group, in the order help lists them.
pub open spec fn all_groups() -> Seq<Group> {
    seq![Group::Navigation, Group::Task, Group::View, Group::Application]
}

impl Group {
    /// The heading the help modal prints.
    pub fn heading(self) -> (s: &'static str)
        ensures
            s@ == heading_text(self),
    {
        match self {
            Group::Navigation => "Navigation",
            Group::Task => "Tasks",
            Group::View => "View",
            Group::Application => "Application",
        }
    }

    /// Every group, in the order help lists them.
    pub fn all() -> (v: Vec<Group>)
        ensures
            v@ == all_groups(),
    {
        let v = vec![Group::Navigation, Group::Task, Group::View, Group::Application];
        proof {
            assert(v@ =~= all_groups());
        }
        v
    }
}

/// What a key does.
///
/// Intent rather than mechanism: `MoveDown` is one action whichever pane has focus.
#[derive(Debug, Clone, Copy, PartialEq, Eq, Structural)]
pub enum Action {
    MoveDown,
    MoveUp,
    PageDown,
    PageUp,
    Top,
    Bottom,
    FocusNext,
    FocusPrevious,
    Back,
    ExpandOrOpen,
    CollapseOrParent,
    OpenProject,
    OpenTask,
    ToggleSidebar,
    TogglePreview,
    ToggleDoneTasks,
    NextLayout,
    PreviousLayout,
    Search,
    GotoProject,
    GotoLabel,
    AddTask,
    EditTask,
    ToggleDone,
    SetPriority,
    SetDue,
    MoveTask,
    SetLabels,
    QuickAction,
    DeleteTask,
    Undo,
    Redo,
    SyncNow,
    SyncFull,
    Help,
    CommandPalette,
    Quit,
}

/// Whether the command palette offers an action: motions and the palette itself are not
/// commands.
pub open spec fn is_command_spec(action: Action) -> bool {
    !(action == Action::MoveDown || action == Action::MoveUp || action == Action::PageDown
        || action == Action::PageUp || action == Action::Top || action == Action::Bottom
        || action == Action::CommandPalette)
}

impl Action {
    /// Whether the command palette offers this action.
    pub fn is_command(self) -> (r: bool)
        ensures
            r == is_command_spec(self),
    {
        !matches!(
            self,
            Action::MoveDown | Action::MoveUp | Action::PageDown | Action::PageUp | Action::Top
                | Action::Bottom | Action::CommandPalette
        )
    }
}

/// One row of the keymap.
#[derive(Debug)]
pub struct Binding {
    /// The chords that trigger it. More than one means alternatives, not a sequence.
    pub keys: Vec<Vec<Key>>,
    /// What it does.
    pub action: Action,
    /// Where it applies.
    pub context: Context,
    /// Which help section it appears under.
    pub group: Group,
    /// The one-line description help prints.
    pub doc: &'static str,
}

/// A binding as a value: its chords, what it does, where, under which heading, and what
/// help says about it.
pub struct BindingView {
    pub keys: Seq<Seq<Key>>,
    pub action: Action,
    pub context: Context,
    pub group: Group,
    pub doc: Seq<char>,
}

impl View for Binding {
    type V = BindingView;

    open spec fn view(&self) -> BindingView {
        BindingView {
            keys: self.keys@.map_values(|chord: Vec<Key>| chord@),
            action: self.action,
            context: self.context,
            group: self.group,
            doc: self.doc@,
        }
    }
}

/// The keys of a binding as help shows them: keys of a chord joined by a space, the
/// alternatives by ` / `.
pub open spec fn keys_text(keys: Seq<Seq<Key>>) -> Seq<char>
    decreases keys.len(),
{
    if keys.len() == 0 {
        Seq::empty()
    } else if keys.len() == 1 {
        chord_text(keys[0])
    } else {
        keys_text(keys.drop_last()) + " / "@ + chord_text(keys.last())
    }
}

/// One chord as help shows it.
pub open spec fn chord_text(chord: Seq<Key>) -> Seq<char>
    decreases chord.len(),
{
    if chord.len() == 0 {
        Seq::empty()
    } else if chord.len() == 1 {
        key_text(chord[0])
    } else {
        chord_text(chord.drop_last()) + " "@ + key_text(chord.last())
    }
}

pub(crate) fn chord_chars(chord: &Vec<Key>) -> (out: Vec<char>)
    ensures
        out@ == chord_text(chord@),
{
    let mut out: Vec<char> = Vec::new();
    let mut i: usize = 0;
    while i < chord.len()
        invariant
            i <= chord.len(),
            out@ == chord_text(chord@.subrange(0, i as int)),
        decreases chord.len() - i,
    {
        if i > 0 {
            out.push(' ');
        }
        let k = key_chars(chord[i]);
        push_all(&mut out, k.as_slice());
        proof {
            let next = chord@.subrange(0, i + 1);
            assert(next.drop_last() =~= chord@.subrange(0, i as int));
            assert(" "@ =~= seq![' ']) by {
                reveal_strlit(" ");
            }
        }
        i += 1;
    }
    proof {
        assert(chord@.subrange(0, chord@.len() as int) =~= chord@);
    }
    out
}

impl Binding {
    /// The chords, rendered the way help shows them: `g g`, or `j / ↓` for alternatives.
    pub fn keys_display(&self) -> (s: String)
        ensures
            s@ == keys_text(self@.keys),
    {
        let mut out: Vec<char> = Vec::new();
        let mut i: usize = 0;
        let ghost keys = self@.keys;
        while i < self.keys.len()
            invariant
                i <= self.keys.len(),
                keys == self@.keys,
                keys.len() == self.keys@.len(),
                out@ == keys_text(keys.subrange(0, i as int)),
            decreases self.keys.len() - i,
        {
            if i > 0 {
                let sep = chars_of(" / ");
                push_all(&mut out, sep.as_slice());
            }
            let c = chord_chars(&self.keys[i]);
            push_all(&mut out, c.as_slice());
            proof {
                let next = keys.subrange(0, i + 1);
                assert(next.drop_last() =~= keys.subrange(0, i as int));
                assert(next.last() == self.keys@[i as int]@);
            }
            i += 1;
        }
        proof {
            assert(keys.subrange(0, keys.len() as int) =~= keys);
        }
        string_of(out.as_slice())
    }

    /// A field-by-field copy.
    pub fn duplicate(&self) -> (b: Binding)
        ensures
            b@ == self@,
    {
        let mut keys: Vec<Vec<Key>> = Vec::new();
        let mut i: usize = 0;
        while i < self.keys.len()
            invariant
                i <= self.keys.len(),
                keys@.len() == i,
                forall|k: int| 0 <= k < i ==> (#[trigger] keys@[k])@ == self.keys@[k]@,
            decreases self.keys.len() - i,
        {
            let chord = &self.keys[i];
            let mut copy: Vec<Key> = Vec::new();
            let mut j: usize = 0;
            while j < chord.len()
                invariant
                    j <= chord.len(),
                    copy@ == chord@.subrange(0, j as int),
                decreases chord.len() - j,
            {
                copy.push(chord[j]);
                j += 1;
            }
            proof {
                assert(chord@.subrange(0, chord@.len() as int) =~= chord@);
            }
            keys.push(copy);
            i += 1;
        }
        let b = Binding {
            keys,
            action: self.action,
            context: self.context,
            group: self.group,
            doc: self.doc,
        };
        proof {
            assert(b@.keys =~= self@.keys);
        }
        b
    }
}

/// A chord of one key.
fn one(k: Key) -> (v: Vec<Key>)
    ensures
        v@ == seq![k],
{
    let mut v = Vec::new();
    v.push(k);
    proof {
        assert(v@ =~= seq![k]);
    }
    v
}

/// A chord of two keys.
fn two(a: Key, b: Key) -> (v: Vec<Key>)
    ensures
        v@ == seq![a, b],
{
    let mut v = Vec::new();
    v.push(a);
    v.push(b);
    proof {
        assert(v@ =~= seq![a, b]);
    }
    v
}

/// A plain character key, as a value.
pub open spec fn ch(c: char) -> Key {
    Key { code: KeyCode::Char(c), mods: no_mods() }
}

/// A control chord, as a value.
pub open spec fn ctl(c: char) -> Key {
    Key { code: KeyCode::Char(c), mods: Modifiers { control: true, ..no_mods() } }
}

/// A plain non-character key, as a value.
pub open spec fn pk(code: KeyCode) -> Key {
    Key { code, mods: no_mods() }
}

/// One keymap row, as a value.
pub open spec fn row(
    keys: Seq<Seq<Key>>,
    action: Action,
    context: Context,
    group: Group,
    doc: Seq<char>,
) -> BindingView {
    BindingView { keys, action, context, group, doc }
}

/// Every binding in tui-do, in table order.
///
/// `H` and `L` cycle column layouts, not vim's screen-top and screen-bottom, and `g` is a
/// prefix, never an action on its own.
pub open spec fn keymap_spec() -> Seq<BindingView> {
    seq![
        row(seq![seq![ch('j')], seq![pk(KeyCode::Down)]], Action::MoveDown, Context::Global, Group::Navigation, "Move down"@),
        row(seq![seq![ch('k')], seq![pk(KeyCode::Up)]], Action::MoveUp, Context::Global, Group::Navigation, "Move up"@),
        row(seq![seq![ctl('d')], seq![pk(KeyCode::PageDown)]], Action::PageDown, Context::Global, Group::Navigation, "Page down"@),
        row(seq![seq![ctl('u')], seq![pk(KeyCode::PageUp)]], Action::PageUp, Context::Global, Group::Navigation, "Page up"@),
        row(seq![seq![ch('g'), ch('g')], seq![pk(KeyCode::Home)]], Action::Top, Context::Global, Group::Navigation, "Jump to the top"@),
        row(seq![seq![ch('G')], seq![pk(KeyCode::End)]], Action::Bottom, Context::Global, Group::Navigation, "Jump to the bottom"@),
        row(seq![seq![pk(KeyCode::Tab)]], Action::FocusNext, Context::Global, Group::Navigation, "Focus the next pane"@),
        row(seq![seq![pk(KeyCode::BackTab)]], Action::FocusPrevious, Context::Global, Group::Navigation, "Focus the previous pane"@),
        row(seq![seq![pk(KeyCode::Esc)]], Action::Back, Context::Global, Group::Navigation, "Back to the list, then out of a search"@),
        row(seq![seq![ch('g'), ch('p')]], Action::GotoProject, Context::Global, Group::Navigation, "Go to a project"@),
        row(seq![seq![ch('g'), ch('l')]], Action::GotoLabel, Context::Global, Group::Navigation, "Go to a label"@),
        row(seq![seq![ch('/')]], Action::Search, Context::Global, Group::Navigation, "Search the current list"@),
        row(seq![seq![ch('l')], seq![pk(KeyCode::Right)], seq![pk(KeyCode::Enter)]], Action::ExpandOrOpen, Context::Sidebar, Group::Navigation, "Expand, or open when already expanded"@),
        row(seq![seq![ch('h')], seq![pk(KeyCode::Left)]], Action::CollapseOrParent, Context::Sidebar, Group::Navigation, "Collapse, or move to the parent"@),
        row(seq![seq![pk(KeyCode::Enter)]], Action::OpenTask, Context::List, Group::Navigation, "Open the selected task"@),
        row(seq![seq![ch('z'), ch('s')]], Action::ToggleSidebar, Context::Global, Group::View, "Show or hide the sidebar"@),
        row(seq![seq![ch('z'), ch('p')]], Action::TogglePreview, Context::Global, Group::View, "Show or hide the preview pane"@),
        row(seq![seq![ch('t')]], Action::ToggleDoneTasks, Context::Global, Group::View, "Show or hide completed tasks"@),
        row(seq![seq![ch('L')]], Action::NextLayout, Context::Global, Group::View, "Next column layout"@),
        row(seq![seq![ch('H')]], Action::PreviousLayout, Context::Global, Group::View, "Previous column layout"@),
        row(seq![seq![ch('a')]], Action::AddTask, Context::Global, Group::Task, "Add a task"@),
        row(seq![seq![ch('e')]], Action::EditTask, Context::Global, Group::Task, "Edit the selected task"@),
        row(seq![seq![ch('d')]], Action::ToggleDone, Context::Global, Group::Task, "Mark done, or not done"@),
        row(seq![seq![ch('p')]], Action::SetPriority, Context::Global, Group::Task, "Set priority"@),
        row(seq![seq![ch('D')]], Action::SetDue, Context::Global, Group::Task, "Set the due date"@),
        row(seq![seq![ch('m')]], Action::MoveTask, Context::Global, Group::Task, "Move to another project"@),
        row(seq![seq![ch('l')]], Action::SetLabels, Context::List, Group::Task, "Add or remove labels"@),
        row(seq![seq![ch(' ')]], Action::QuickAction, Context::Global, Group::Task, "Configured quick actions"@),
        row(seq![seq![ch('x')]], Action::DeleteTask, Context::Global, Group::Task, "Delete the task"@),
        row(seq![seq![ch('u')]], Action::Undo, Context::Global, Group::Task, "Undo the last change"@),
        row(seq![seq![ctl('r')]], Action::Redo, Context::Global, Group::Task, "Redo"@),
        row(seq![seq![ch('r')]], Action::SyncNow, Context::Global, Group::Application, "Sync changes"@),
        row(seq![seq![ch('R')]], Action::SyncFull, Context::Global, Group::Application, "Sync everything"@),
        row(seq![seq![ch(':')]], Action::CommandPalette, Context::Global, Group::Application, "Run a command by name"@),
        row(seq![seq![ch('?')]], Action::Help, Context::Global, Group::Application, "Show this help"@),
        row(seq![seq![ch('q')], seq![ctl('c')]], Action::Quit, Context::Global, Group::Application, "Quit"@),
    ]
}

/// The keymap's rows as values.
pub open spec fn view_all(table: Seq<Binding>) -> Seq<BindingView> {
    table.map_values(|b: Binding| b@)
}

fn bind(
    keys: Vec<Vec<Key>>,
    action: Action,
    context: Context,
    group: Group,
    doc: &'static str,
) -> (b: Binding)
    ensures
        b@ == row(keys@.map_values(|chord: Vec<Key>| chord@), action, context, group, doc@),
{
    Binding { keys, action, context, group, doc }
}

fn alts1(a: Vec<Key>) -> (v: Vec<Vec<Key>>)
    ensures
        v@.map_values(|chord: Vec<Key>| chord@) == seq![a@],
{
    let mut v = Vec::new();
    v.push(a);
    proof {
        assert(v@.map_values(|chord: Vec<Key>| chord@) =~= seq![a@]);
    }
    v
}

fn alts2(a: Vec<Key>, b: Vec<Key>) -> (v: Vec<Vec<Key>>)
    ensures
        v@.map_values(|chord: Vec<Key>| chord@) == seq![a@, b@],
{
    let mut v = Vec::new();
    v.push(a);
    v.push(b);
    proof {
        assert(v@.map_values(|chord: Vec<Key>| chord@) =~= seq![a@, b@]);
    }
    v
}

fn alts3(a: Vec<Key>, b: Vec<Key>, c: Vec<Key>) -> (v: Vec<Vec<Key>>)
    ensures
        v@.map_values(|chord: Vec<Key>| chord@) == seq![a@, b@, c@],
{
    let mut v = Vec::new();
    v.push(a);
    v.push(b);
    v.push(c);
    proof {
        assert(v@.map_values(|chord: Vec<Key>| chord@) =~= seq![a@, b@, c@]);
    }
    v
}

/// Every binding in tui-do, in table order.
#[verifier::rlimit(60)]
pub fn keymap() -> (table: Vec<Binding>)
    ensures
        view_all(table@) == keymap_spec(),
{
    let g = Context::Global;
    let mut t: Vec<Binding> = Vec::new();
    t.push(bind(alts2(one(Key::char('j')), one(Key::plain(KeyCode::Down))), Action::MoveDown, g, Group::Navigation, "Move down"));
    t.push(bind(alts2(one(Key::char('k')), one(Key::plain(KeyCode::Up))), Action::MoveUp, g, Group::Navigation, "Move up"));
    t.push(bind(alts2(one(Key::ctrl('d')), one(Key::plain(KeyCode::PageDown))), Action::PageDown, g, Group::Navigation, "Page down"));
    t.push(bind(alts2(one(Key::ctrl('u')), one(Key::plain(KeyCode::PageUp))), Action::PageUp, g, Group::Navigation, "Page up"));
    t.push(bind(alts2(two(Key::char('g'), Key::char('g')), one(Key::plain(KeyCode::Home))), Action::Top, g, Group::Navigation, "Jump to the top"));
    t.push(bind(alts2(one(Key::char('G')), one(Key::plain(KeyCode::End))), Action::Bottom, g, Group::Navigation, "Jump to the bottom"));
    t.push(bind(alts1(one(Key::plain(KeyCode::Tab))), Action::FocusNext, g, Group::Navigation, "Focus the next pane"));
    t.push(bind(alts1(one(Key::plain(KeyCode::BackTab))), Action::FocusPrevious, g, Group::Navigation, "Focus the previous pane"));
    t.push(bind(alts1(one(Key::plain(KeyCode::Esc))), Action::Back, g, Group::Navigation, "Back to the list, then out of a search"));
    t.push(bind(alts1(two(Key::char('g'), Key::char('p'))), Action::GotoProject, g, Group::Navigation, "Go to a project"));
    t.push(bind(alts1(two(Key::char('g'), Key::char('l'))), Action::GotoLabel, g, Group::Navigation, "Go to a label"));
    t.push(bind(alts1(one(Key::char('/'))), Action::Search, g, Group::Navigation, "Search the current list"));
    t.push(bind(alts3(one(Key::char('l')), one(Key::plain(KeyCode::Right)), one(Key::plain(KeyCode::Enter))), Action::ExpandOrOpen, Context::Sidebar, Group::Navigation, "Expand, or open when already expanded"));
    t.push(bind(alts2(one(Key::char('h')), one(Key::plain(KeyCode::Left))), Action::CollapseOrParent, Context::Sidebar, Group::Navigation, "Collapse, or move to the parent"));
    t.push(bind(alts1(one(Key::plain(KeyCode::Enter))), Action::OpenTask, Context::List, Group::Navigation, "Open the selected task"));
    t.push(bind(alts1(two(Key::char('z'), Key::char('s'))), Action::ToggleSidebar, g, Group::View, "Show or hide the sidebar"));
    t.push(bind(alts1(two(Key::char('z'), Key::char('p'))), Action::TogglePreview, g, Group::View, "Show or hide the preview pane"));
    t.push(bind(alts1(one(Key::char('t'))), Action::ToggleDoneTasks, g, Group::View, "Show or hide completed tasks"));
    t.push(bind(alts1(one(Key::char('L'))), Action::NextLayout, g, Group::View, "Next column layout"));
    t.push(bind(alts1(one(Key::char('H'))), Action::PreviousLayout, g, Group::View, "Previous column layout"));
    t.push(bind(alts1(one(Key::char('a'))), Action::AddTask, g, Group::Task, "Add a task"));
    t.push(bind(alts1(one(Key::char('e'))), Action::EditTask, g, Group::Task, "Edit the selected task"));
    t.push(bind(alts1(one(Key::char('d'))), Action::ToggleDone, g, Group::Task, "Mark done, or not done"));
    t.push(bind(alts1(one(Key::char('p'))), Action::SetPriority, g, Group::Task, "Set priority"));
    t.push(bind(alts1(one(Key::char('D'))), Action::SetDue, g, Group::Task, "Set the due date"));
    t.push(bind(alts1(one(Key::char('m'))), Action::MoveTask, g, Group::Task, "Move to another project"));
    t.push(bind(alts1(one(Key::char('l'))), Action::SetLabels, Context::List, Group::Task, "Add or remove labels"));
    t.push(bind(alts1(one(Key::char(' '))), Action::QuickAction, g, Group::Task, "Configured quick actions"));
    t.push(bind(alts1(one(Key::char('x'))), Action::DeleteTask, g, Group::Task, "Delete the task"));
    t.push(bind(alts1(one(Key::char('u'))), Action::Undo, g, Group::Task, "Undo the last change"));
    t.push(bind(alts1(one(Key::ctrl('r'))), Action::Redo, g, Group::Task, "Redo"));
    t.push(bind(alts1(one(Key::char('r'))), Action::SyncNow, g, Group::Application, "Sync changes"));
    t.push(bind(alts1(one(Key::char('R'))), Action::SyncFull, g, Group::Application, "Sync everything"));
    t.push(bind(alts1(one(Key::char(':'))), Action::CommandPalette, g, Group::Application, "Run a command by name"));
    t.push(bind(alts1(one(Key::char('?'))), Action::Help, g, Group::Application, "Show this help"));
    t.push(bind(alts2(one(Key::char('q')), one(Key::ctrl('c'))), Action::Quit, g, Group::Application, "Quit"));
    proof {
        assert(view_all(t@) =~= keymap_spec());
    }
    t
}

/// Whether a binding applies in `context`.
pub open spec fn applies(b: BindingView, context: Context) -> bool {
    b.context == Context::Global || b.context == context
}

/// Whether `sequence` completes one of the binding's chords in `context`.
pub open spec fn completes(b: BindingView, sequence: Seq<Key>, context: Context) -> bool {
    applies(b, context) && b.keys.contains(sequence)
}

/// Whether `sequence` is the start of a longer chord of the binding, in `context`.
pub open spec fn begins(b: BindingView, sequence: Seq<Key>, context: Context) -> bool {
    applies(b, context) && exists|i: int|
        0 <= i < b.keys.len() && (#[trigger] b.keys[i]).len() > sequence.len()
            && b.keys[i].subrange(0, sequence.len() as int) == sequence
}

/// The action of the first row, from `i` on, that `sequence` completes.
pub open spec fn first_completed(
    table: Seq<BindingView>,
    i: int,
    sequence: Seq<Key>,
    context: Context,
) -> Option<Action>
    decreases table.len() - i,
{
    if i < 0 || i >= table.len() {
        None
    } else if completes(table[i], sequence, context) {
        Some(table[i].action)
    } else {
        first_completed(table, i + 1, sequence, context)
    }
}

/// The first row from `i` on that `sequence` completes is the one at `target`, when none
/// before it does and it does.
proof fn lemma_first_completed_at(
    table: Seq<BindingView>,
    i: int,
    target: int,
    sequence: Seq<Key>,
    context: Context,
)
    requires
        0 <= i <= target < table.len(),
        forall|j: int| i <= j < target ==> !completes(#[trigger] table[j], sequence, context),
        completes(table[target], sequence, context),
    ensures
        first_completed(table, i, sequence, context) == Some(table[target].action),
    decreases target - i,
{
    if i < target {
        lemma_first_completed_at(table, i + 1, target, sequence, context);
    }
}

/// A one-key chord that no chord of a row shares its key with is not one of that row's.
proof fn lemma_single_not_in(keys: Seq<Seq<Key>>, key: Key)
    requires
        forall|k: int| 0 <= k < keys.len() ==> (#[trigger] keys[k]).len() != 1 || keys[k][0] != key,
    ensures
        !keys.contains(seq![key]),
{
    if keys.contains(seq![key]) {
        let k = choose|k: int| 0 <= k < keys.len() && keys[k] == seq![key];
        assert(keys[k][0] == key);
    }
}

/// `u` undoes and Ctrl-R redoes, alone and in every context.
pub proof fn law_u_undoes_and_ctrl_r_redoes(context: Context)
    ensures
        resolution(Seq::empty(), ch('u'), context) == Resolved::Action(Action::Undo),
        resolution(Seq::empty(), ctl('r'), context) == Resolved::Action(Action::Redo),
{
    lemma_key_undo(context);
    lemma_key_redo(context);
}

/// A one-key press resolves to the action of the row it is listed in, when no earlier row
/// that applies lists that key alone.
proof fn lemma_key_at(key: Key, target: int, index: int, context: Context)
    requires
        0 <= target < keymap_spec().len(),
        0 <= index < keymap_spec()[target].keys.len(),
        keymap_spec()[target].keys[index] == seq![key],
        applies(keymap_spec()[target], context),
        forall|j: int, k: int|
            0 <= j < target && applies(keymap_spec()[j], context) && 0 <= k
                < keymap_spec()[j].keys.len() ==> (#[trigger] keymap_spec()[j].keys[k]).len() != 1
                || keymap_spec()[j].keys[k][0] != key,
    ensures
        resolution(Seq::empty(), key, context) == Resolved::Action(keymap_spec()[target].action),
{
    let t = keymap_spec();
    let sq = seq![key];
    assert(Seq::<Key>::empty().push(key) =~= sq);
    assert forall|j: int| 0 <= j < target implies !completes(#[trigger] t[j], sq, context) by {
        if applies(t[j], context) {
            lemma_single_not_in(t[j].keys, key);
        }
    }
    assert(t[target].keys.contains(sq));
    lemma_first_completed_at(t, 0, target, sq, context);
}

/// A key listed alone in a row that applies everywhere resolves to that row's action in
/// every context, when no earlier row lists that key alone.
proof fn lemma_global_key_at(key: Key, target: int, index: int, context: Context)
    requires
        0 <= target < keymap_spec().len(),
        0 <= index < keymap_spec()[target].keys.len(),
        keymap_spec()[target].keys[index] == seq![key],
        keymap_spec()[target].context == Context::Global,
        forall|j: int, k: int|
            0 <= j < target && 0 <= k < keymap_spec()[j].keys.len() ==> (
            #[trigger] keymap_spec()[j].keys[k]).len() != 1 || keymap_spec()[j].keys[k][0] != key,
    ensures
        resolution(Seq::empty(), key, context) == Resolved::Action(keymap_spec()[target].action),
{
    lemma_key_at(key, target, index, context);
}

/// `ch('j')` alone, in any context: the action of row 0.
proof fn lemma_key_move_down(context: Context)
    ensures
        resolution(Seq::empty(), ch('j'), context) == Resolved::Action(Action::MoveDown),
{
    lemma_global_key_at(ch('j'), 0, 0, context);
}

/// `pk(KeyCode::Down)` alone, in any context: the action of row 0.
proof fn lemma_key_move_down_also(context: Context)
    ensures
        resolution(Seq::empty(), pk(KeyCode::Down), context) == Resolved::Action(Action::MoveDown),
{
    lemma_global_key_at(pk(KeyCode::Down), 0, 1, context);
}

/// `ch('k')` alone, in any context: the action of row 1.
proof fn lemma_key_move_up(context: Context)
    ensures
        resolution(Seq::empty(), ch('k'), context) == Resolved::Action(Action::MoveUp),
{
    lemma_global_key_at(ch('k'), 1, 0, context);
}

/// `pk(KeyCode::Up)` alone, in any context: the action of row 1.
proof fn lemma_key_move_up_also(context: Context)
    ensures
        resolution(Seq::empty(), pk(KeyCode::Up), context) == Resolved::Action(Action::MoveUp),
{
    lemma_global_key_at(pk(KeyCode::Up), 1, 1, context);
}

/// `ctl('d')` alone, in any context: the action of row 2.
proof fn lemma_key_page_down(context: Context)
    ensures
        resolution(Seq::empty(), ctl('d'), context) == Resolved::Action(Action::PageDown),
{
    lemma_global_key_at(ctl('d'), 2, 0, context);
}

/// `pk(KeyCode::PageDown)` alone, in any context: the action of row 2.
proof fn lemma_key_page_down_also(context: Context)
    ensures
        resolution(Seq::empty(), pk(KeyCode::PageDown), context) == Resolved::Action(Action::PageDown),
{
    lemma_global_key_at(pk(KeyCode::PageDown), 2, 1, context);
}

/// `ctl('u')` alone, in any context: the action of row 3.
proof fn lemma_key_page_up(context: Context)
    ensures
        resolution(Seq::empty(), ctl('u'), context) == Resolved::Action(Action::PageUp),
{
    lemma_global_key_at(ctl('u'), 3, 0, context);
}

/// `pk(KeyCode::PageUp)` alone, in any context: the action of row 3.
proof fn lemma_key_page_up_also(context: Context)
    ensures
        resolution(Seq::empty(), pk(KeyCode::PageUp), context) == Resolved::Action(Action::PageUp),
{
    lemma_global_key_at(pk(KeyCode::PageUp), 3, 1, context);
}

/// `pk(KeyCode::Home)` alone, in any context: the action of row 4.
proof fn lemma_key_top(context: Context)
    ensures
        resolution(Seq::empty(), pk(KeyCode::Home), context) == Resolved::Action(Action::Top),
{
    lemma_global_key_at(pk(KeyCode::Home), 4, 1, context);
}

/// `ch('G')` alone, in any context: the action of row 5.
proof fn lemma_key_bottom(context: Context)
    ensures
        resolution(Seq::empty(), ch('G'), context) == Resolved::Action(Action::Bottom),
{
    lemma_global_key_at(ch('G'), 5, 0, context);
}

/// `pk(KeyCode::End)` alone, in any context: the action of row 5.
proof fn lemma_key_bottom_also(context: Context)
    ensures
        resolution(Seq::empty(), pk(KeyCode::End), context) == Resolved::Action(Action::Bottom),
{
    lemma_global_key_at(pk(KeyCode::End), 5, 1, context);
}

/// `pk(KeyCode::Tab)` alone, in any context: the action of row 6.
proof fn lemma_key_focus_next(context: Context)
    ensures
        resolution(Seq::empty(), pk(KeyCode::Tab), context) == Resolved::Action(Action::FocusNext),
{
    lemma_global_key_at(pk(KeyCode::Tab), 6, 0, context);
}

/// `pk(KeyCode::BackTab)` alone, in any context: the action of row 7.
proof fn lemma_key_focus_previous(context: Context)
    ensures
        resolution(Seq::empty(), pk(KeyCode::BackTab), context) == Resolved::Action(Action::FocusPrevious),
{
    lemma_global_key_at(pk(KeyCode::BackTab), 7, 0, context);
}

/// `pk(KeyCode::Esc)` alone, in any context: the action of row 8.
proof fn lemma_key_back(context: Context)
    ensures
        resolution(Seq::empty(), pk(KeyCode::Esc), context) == Resolved::Action(Action::Back),
{
    lemma_global_key_at(pk(KeyCode::Esc), 8, 0, context);
}

/// `ch('/')` alone, in any context: the action of row 11.
proof fn lemma_key_search(context: Context)
    ensures
        resolution(Seq::empty(), ch('/'), context) == Resolved::Action(Action::Search),
{
    lemma_global_key_at(ch('/'), 11, 0, context);
}

/// `ch('t')` alone, in any context: the action of row 17.
proof fn lemma_key_toggle_done_tasks(context: Context)
    ensures
        resolution(Seq::empty(), ch('t'), context) == Resolved::Action(Action::ToggleDoneTasks),
{
    lemma_global_key_at(ch('t'), 17, 0, context);
}

/// `ch('L')` alone, in any context: the action of row 18.
proof fn lemma_key_next_layout(context: Context)
    ensures
        resolution(Seq::empty(), ch('L'), context) == Resolved::Action(Action::NextLayout),
{
    lemma_global_key_at(ch('L'), 18, 0, context);
}

/// `ch('H')` alone, in any context: the action of row 19.
proof fn lemma_key_previous_layout(context: Context)
    ensures
        resolution(Seq::empty(), ch('H'), context) == Resolved::Action(Action::PreviousLayout),
{
    lemma_global_key_at(ch('H'), 19, 0, context);
}

/// `ch('a')` alone, in any context: the action of row 20.
proof fn lemma_key_add_task(context: Context)
    ensures
        resolution(Seq::empty(), ch('a'), context) == Resolved::Action(Action::AddTask),
{
    lemma_global_key_at(ch('a'), 20, 0, context);
}

/// `ch('e')` alone, in any context: the action of row 21.
proof fn lemma_key_edit_task(context: Context)
    ensures
        resolution(Seq::empty(), ch('e'), context) == Resolved::Action(Action::EditTask),
{
    lemma_global_key_at(ch('e'), 21, 0, context);
}

/// `ch('d')` alone, in any context: the action of row 22.
proof fn lemma_key_toggle_done(context: Context)
    ensures
        resolution(Seq::empty(), ch('d'), context) == Resolved::Action(Action::ToggleDone),
{
    lemma_global_key_at(ch('d'), 22, 0, context);
}

/// `ch('p')` alone, in any context: the action of row 23.
proof fn lemma_key_set_priority(context: Context)
    ensures
        resolution(Seq::empty(), ch('p'), context) == Resolved::Action(Action::SetPriority),
{
    lemma_global_key_at(ch('p'), 23, 0, context);
}

/// `ch('D')` alone, in any context: the action of row 24.
proof fn lemma_key_set_due(context: Context)
    ensures
        resolution(Seq::empty(), ch('D'), context) == Resolved::Action(Action::SetDue),
{
    lemma_global_key_at(ch('D'), 24, 0, context);
}

/// `ch('m')` alone, in any context: the action of row 25.
proof fn lemma_key_move_task(context: Context)
    ensures
        resolution(Seq::empty(), ch('m'), context) == Resolved::Action(Action::MoveTask),
{
    lemma_global_key_at(ch('m'), 25, 0, context);
}

/// `ch(' ')` alone, in any context: the action of row 27.
proof fn lemma_key_quick_action(context: Context)
    ensures
        resolution(Seq::empty(), ch(' '), context) == Resolved::Action(Action::QuickAction),
{
    lemma_global_key_at(ch(' '), 27, 0, context);
}

/// `ch('x')` alone, in any context: the action of row 28.
proof fn lemma_key_delete_task(context: Context)
    ensures
        resolution(Seq::empty(), ch('x'), context) == Resolved::Action(Action::DeleteTask),
{
    lemma_global_key_at(ch('x'), 28, 0, context);
}

/// `ch('u')` alone, in any context: the action of row 29.
proof fn lemma_key_undo(context: Context)
    ensures
        resolution(Seq::empty(), ch('u'), context) == Resolved::Action(Action::Undo),
{
    lemma_global_key_at(ch('u'), 29, 0, context);
}

/// `ctl('r')` alone, in any context: the action of row 30.
proof fn lemma_key_redo(context: Context)
    ensures
        resolution(Seq::empty(), ctl('r'), context) == Resolved::Action(Action::Redo),
{
    lemma_global_key_at(ctl('r'), 30, 0, context);
}

/// `ch('r')` alone, in any context: the action of row 31.
proof fn lemma_key_sync_now(context: Context)
    ensures
        resolution(Seq::empty(), ch('r'), context) == Resolved::Action(Action::SyncNow),
{
    lemma_global_key_at(ch('r'), 31, 0, context);
}

/// `ch('R')` alone, in any context: the action of row 32.
proof fn lemma_key_sync_full(context: Context)
    ensures
        resolution(Seq::empty(), ch('R'), context) == Resolved::Action(Action::SyncFull),
{
    lemma_global_key_at(ch('R'), 32, 0, context);
}

/// `ch(':')` alone, in any context: the action of row 33.
proof fn lemma_key_command_palette(context: Context)
    ensures
        resolution(Seq::empty(), ch(':'), context) == Resolved::Action(Action::CommandPalette),
{
    lemma_global_key_at(ch(':'), 33, 0, context);
}

/// `ch('?')` alone, in any context: the action of row 34.
proof fn lemma_key_help(context: Context)
    ensures
        resolution(Seq::empty(), ch('?'), context) == Resolved::Action(Action::Help),
{
    lemma_global_key_at(ch('?'), 34, 0, context);
}

/// `ch('q')` alone, in any context: the action of row 35.
proof fn lemma_key_quit(context: Context)
    ensures
        resolution(Seq::empty(), ch('q'), context) == Resolved::Action(Action::Quit),
{
    lemma_global_key_at(ch('q'), 35, 0, context);
}

/// `ctl('c')` alone, in any context: the action of row 35.
proof fn lemma_key_quit_also(context: Context)
    ensures
        resolution(Seq::empty(), ctl('c'), context) == Resolved::Action(Action::Quit),
{
    lemma_global_key_at(ctl('c'), 35, 1, context);
}

/// Every key bound alone in a row that applies everywhere does, in every context, what
/// that row says: `j` and Down move down, `k` and Up move up, Ctrl-D and PageDown page
/// down, Ctrl-U and PageUp page up, Home goes to the top and `G` and End to the bottom,
/// Tab and BackTab move focus, Esc goes back, `/` searches, `t` shows or hides completed
/// tasks, `L` and `H` cycle layouts, `a` adds, `e` edits, `d` marks done, `p` sets the
/// priority, `D` the due date, `m` moves, Space offers quick actions, `x` deletes, `u`
/// undoes, Ctrl-R redoes, `r` syncs changes, `R` syncs everything, `:` opens the palette,
/// `?` shows help, and `q` and Ctrl-C quit.
#[verifier::spinoff_prover]
pub proof fn law_every_key_does_what_its_row_says(context: Context)
    ensures
        resolution(Seq::empty(), ch('j'), context) == Resolved::Action(Action::MoveDown),
        resolution(Seq::empty(), pk(KeyCode::Down), context) == Resolved::Action(Action::MoveDown),
        resolution(Seq::empty(), ch('k'), context) == Resolved::Action(Action::MoveUp),
        resolution(Seq::empty(), pk(KeyCode::Up), context) == Resolved::Action(Action::MoveUp),
        resolution(Seq::empty(), ctl('d'), context) == Resolved::Action(Action::PageDown),
        resolution(Seq::empty(), pk(KeyCode::PageDown), context) == Resolved::Action(Action::PageDown),
        resolution(Seq::empty(), ctl('u'), context) == Resolved::Action(Action::PageUp),
        resolution(Seq::empty(), pk(KeyCode::PageUp), context) == Resolved::Action(Action::PageUp),
        resolution(Seq::empty(), pk(KeyCode::Home), context) == Resolved::Action(Action::Top),
        resolution(Seq::empty(), ch('G'), context) == Resolved::Action(Action::Bottom),
        resolution(Seq::empty(), pk(KeyCode::End), context) == Resolved::Action(Action::Bottom),
        resolution(Seq::empty(), pk(KeyCode::Tab), context) == Resolved::Action(Action::FocusNext),
        resolution(Seq::empty(), pk(KeyCode::BackTab), context) == Resolved::Action(Action::FocusPrevious),
        resolution(Seq::empty(), pk(KeyCode::Esc), context) == Resolved::Action(Action::Back),
        resolution(Seq::empty(), ch('/'), context) == Resolved::Action(Action::Search),
        resolution(Seq::empty(), ch('t'), context) == Resolved::Action(Action::ToggleDoneTasks),
        resolution(Seq::empty(), ch('L'), context) == Resolved::Action(Action::NextLayout),
        resolution(Seq::empty(), ch('H'), context) == Resolved::Action(Action::PreviousLayout),
        resolution(Seq::empty(), ch('a'), context) == Resolved::Action(Action::AddTask),
        resolution(Seq::empty(), ch('e'), context) == Resolved::Action(Action::EditTask),
        resolution(Seq::empty(), ch('d'), context) == Resolved::Action(Action::ToggleDone),
        resolution(Seq::empty(), ch('p'), context) == Resolved::Action(Action::SetPriority),
        resolution(Seq::empty(), ch('D'), context) == Resolved::Action(Action::SetDue),
        resolution(Seq::empty(), ch('m'), context) == Resolved::Action(Action::MoveTask),
        resolution(Seq::empty(), ch(' '), context) == Resolved::Action(Action::QuickAction),
        resolution(Seq::empty(), ch('x'), context) == Resolved::Action(Action::DeleteTask),
        resolution(Seq::empty(), ch('u'), context) == Resolved::Action(Action::Undo),
        resolution(Seq::empty(), ctl('r'), context) == Resolved::Action(Action::Redo),
        resolution(Seq::empty(), ch('r'), context) == Resolved::Action(Action::SyncNow),
        resolution(Seq::empty(), ch('R'), context) == Resolved::Action(Action::SyncFull),
        resolution(Seq::empty(), ch(':'), context) == Resolved::Action(Action::CommandPalette),
        resolution(Seq::empty(), ch('?'), context) == Resolved::Action(Action::Help),
        resolution(Seq::empty(), ch('q'), context) == Resolved::Action(Action::Quit),
        resolution(Seq::empty(), ctl('c'), context) == Resolved::Action(Action::Quit),
{
    lemma_key_move_down(context);
    lemma_key_move_down_also(context);
    lemma_key_move_up(context);
    lemma_key_move_up_also(context);
    lemma_key_page_down(context);
    lemma_key_page_down_also(context);
    lemma_key_page_up(context);
    lemma_key_page_up_also(context);
    lemma_key_top(context);
    lemma_key_bottom(context);
    lemma_key_bottom_also(context);
    lemma_key_focus_next(context);
    lemma_key_focus_previous(context);
    lemma_key_back(context);
    lemma_key_search(context);
    lemma_key_toggle_done_tasks(context);
    lemma_key_next_layout(context);
    lemma_key_previous_layout(context);
    lemma_key_add_task(context);
    lemma_key_edit_task(context);
    lemma_key_toggle_done(context);
    lemma_key_set_priority(context);
    lemma_key_set_due(context);
    lemma_key_move_task(context);
    lemma_key_quick_action(context);
    lemma_key_delete_task(context);
    lemma_key_undo(context);
    lemma_key_redo(context);
    lemma_key_sync_now(context);
    lemma_key_sync_full(context);
    lemma_key_command_palette(context);
    lemma_key_help(context);
    lemma_key_quit(context);
    lemma_key_quit_also(context);
}

/// A two-key chord that no chord of a row matches key for key is not one of that row's.
proof fn lemma_pair_not_in(keys: Seq<Seq<Key>>, a: Key, b: Key)
    requires
        forall|k: int|
            0 <= k < keys.len() ==> (#[trigger] keys[k]).len() != 2 || keys[k][0] != a || keys[k][1] != b,
    ensures
        !keys.contains(seq![a, b]),
{
    if keys.contains(seq![a, b]) {
        let k = choose|k: int| 0 <= k < keys.len() && keys[k] == seq![a, b];
        assert(keys[k][0] == a && keys[k][1] == b);
    }
}

/// A two-key chord listed in a row that applies everywhere resolves to that row's action
/// once its first key is held, when no earlier row lists that chord.
proof fn lemma_chord_at(a: Key, b: Key, target: int, index: int, context: Context)
    requires
        0 <= target < keymap_spec().len(),
        0 <= index < keymap_spec()[target].keys.len(),
        keymap_spec()[target].keys[index] == seq![a, b],
        keymap_spec()[target].context == Context::Global,
        forall|j: int, k: int|
            0 <= j < target && 0 <= k < keymap_spec()[j].keys.len() ==> (
            #[trigger] keymap_spec()[j].keys[k]).len() != 2 || keymap_spec()[j].keys[k][0] != a
                || keymap_spec()[j].keys[k][1] != b,
    ensures
        resolution(seq![a], b, context) == Resolved::Action(keymap_spec()[target].action),
{
    let t = keymap_spec();
    let sq = seq![a, b];
    assert(seq![a].push(b) =~= sq);
    assert forall|j: int| 0 <= j < target implies !completes(#[trigger] t[j], sq, context) by {
        lemma_pair_not_in(t[j].keys, a, b);
    }
    assert(t[target].keys.contains(sq));
    lemma_first_completed_at(t, 0, target, sq, context);
}

/// `g g` goes to the top.
proof fn lemma_chord_top(context: Context)
    ensures
        resolution(seq![ch('g')], ch('g'), context) == Resolved::Action(Action::Top),
{
    lemma_chord_at(ch('g'), ch('g'), 4, 0, context);
}

/// `g p` goes to a project.
proof fn lemma_chord_goto_project(context: Context)
    ensures
        resolution(seq![ch('g')], ch('p'), context) == Resolved::Action(Action::GotoProject),
{
    lemma_chord_at(ch('g'), ch('p'), 9, 0, context);
}

/// `g l` goes to a label.
proof fn lemma_chord_goto_label(context: Context)
    ensures
        resolution(seq![ch('g')], ch('l'), context) == Resolved::Action(Action::GotoLabel),
{
    lemma_chord_at(ch('g'), ch('l'), 10, 0, context);
}

/// `z s` shows or hides the sidebar.
proof fn lemma_chord_toggle_sidebar(context: Context)
    ensures
        resolution(seq![ch('z')], ch('s'), context) == Resolved::Action(Action::ToggleSidebar),
{
    lemma_chord_at(ch('z'), ch('s'), 15, 0, context);
}

/// `z p` shows or hides the preview.
proof fn lemma_chord_toggle_preview(context: Context)
    ensures
        resolution(seq![ch('z')], ch('p'), context) == Resolved::Action(Action::TogglePreview),
{
    lemma_chord_at(ch('z'), ch('p'), 16, 0, context);
}

/// The two-key chords, in every context: `g g` jumps to the top, `g p` and `g l` go to a
/// project and to a label, and `z s` and `z p` show or hide the sidebar and the preview.
pub proof fn law_chords_do_what_their_rows_say(context: Context)
    ensures
        resolution(seq![ch('g')], ch('g'), context) == Resolved::Action(Action::Top),
        resolution(seq![ch('g')], ch('p'), context) == Resolved::Action(Action::GotoProject),
        resolution(seq![ch('g')], ch('l'), context) == Resolved::Action(Action::GotoLabel),
        resolution(seq![ch('z')], ch('s'), context) == Resolved::Action(Action::ToggleSidebar),
        resolution(seq![ch('z')], ch('p'), context) == Resolved::Action(Action::TogglePreview),
{
    lemma_chord_top(context);
    lemma_chord_goto_project(context);
    lemma_chord_goto_label(context);
    lemma_chord_toggle_sidebar(context);
    lemma_chord_toggle_preview(context);
}

/// The keys that mean one thing in the sidebar and another in the list: in the sidebar
/// `l`, Right and Enter expand or open and `h` and Left collapse or go to the parent; in
/// the list Enter opens the task and `l` sets its labels.
pub proof fn law_pane_keys_follow_the_focus()
    ensures
        resolution(Seq::empty(), ch('l'), Context::Sidebar) == Resolved::Action(Action::ExpandOrOpen),
        resolution(Seq::empty(), ch('l'), Context::List) == Resolved::Action(Action::SetLabels),
        resolution(Seq::empty(), pk(KeyCode::Right), Context::Sidebar) == Resolved::Action(Action::ExpandOrOpen),
        resolution(Seq::empty(), pk(KeyCode::Enter), Context::Sidebar) == Resolved::Action(Action::ExpandOrOpen),
        resolution(Seq::empty(), pk(KeyCode::Enter), Context::List) == Resolved::Action(Action::OpenTask),
        resolution(Seq::empty(), ch('h'), Context::Sidebar) == Resolved::Action(Action::CollapseOrParent),
        resolution(Seq::empty(), pk(KeyCode::Left), Context::Sidebar) == Resolved::Action(Action::CollapseOrParent),
{
    lemma_key_at(ch('l'), 12, 0, Context::Sidebar);
    lemma_key_at(ch('l'), 26, 0, Context::List);
    lemma_key_at(pk(KeyCode::Right), 12, 1, Context::Sidebar);
    lemma_key_at(pk(KeyCode::Enter), 12, 2, Context::Sidebar);
    lemma_key_at(pk(KeyCode::Enter), 14, 0, Context::List);
    lemma_key_at(ch('h'), 13, 0, Context::Sidebar);
    lemma_key_at(pk(KeyCode::Left), 13, 1, Context::Sidebar);
}

/// What looking a key up produced.
#[derive(Debug, Clone, Copy, PartialEq, Eq, Structural)]
pub enum Resolved {
    /// The key completed a binding.
    Action(Action),
    /// The key began a chord. The caller holds it and waits for the next one.
    Pending,
    /// The key is bound to nothing here.
    Unbound,
}

/// What pressing `key` after `pending` means in `context`.
///
/// A complete match wins over a prefix match, and the first row of the table wins over
/// later ones; a key that neither completes nor begins a chord is unbound.
pub open spec fn resolution(pending: Seq<Key>, key: Key, context: Context) -> Resolved {
    let sequence = pending.push(key);
    match first_completed(keymap_spec(), 0, sequence, context) {
        Some(action) => Resolved::Action(action),
        None => if exists|i: int|
            0 <= i < keymap_spec().len() && begins(#[trigger] keymap_spec()[i], sequence, context) {
            Resolved::Pending
        } else {
            Resolved::Unbound
        },
    }
}

fn same_keys(a: &Vec<Key>, b: &Vec<Key>) -> (r: bool)
    ensures
        r == (a@ == b@),
{
    if a.len() != b.len() {
        return false;
    }
    let mut i: usize = 0;
    while i < a.len()
        invariant
            a.len() == b.len(),
            i <= a.len(),
            forall|k: int| 0 <= k < i ==> a@[k] == b@[k],
        decreases a.len() - i,
    {
        if a[i] != b[i] {
            return false;
        }
        i += 1;
    }
    assert(a@ =~= b@);
    true
}

fn begins_with(chord: &Vec<Key>, sequence: &Vec<Key>) -> (r: bool)
    ensures
        r == (chord@.len() > sequence@.len() && chord@.subrange(0, sequence@.len() as int)
            == sequence@),
{
    if chord.len() <= sequence.len() {
        return false;
    }
    let mut i: usize = 0;
    while i < sequence.len()
        invariant
            chord.len() > sequence.len(),
            i <= sequence.len(),
            forall|k: int| 0 <= k < i ==> chord@[k] == sequence@[k],
        decreases sequence.len() - i,
    {
        if chord[i] != sequence[i] {
            assert(chord@.subrange(0, sequence@.len() as int)[i as int] != sequence@[i as int]);
            return false;
        }
        i += 1;
    }
    assert(chord@.subrange(0, sequence@.len() as int) =~= sequence@);
    true
}

fn applies_exec(b: &Binding, context: Context) -> (r: bool)
    ensures
        r == applies(b@, context),
{
    b.context == Context::Global || b.context == context
}

fn completes_exec(b: &Binding, sequence: &Vec<Key>, context: Context) -> (r: bool)
    ensures
        r == completes(b@, sequence@, context),
{
    if !applies_exec(b, context) {
        return false;
    }
    let ghost keys = b@.keys;
    let mut i: usize = 0;
    while i < b.keys.len()
        invariant
            keys == b@.keys,
            applies(b@, context),
            i <= b.keys.len(),
            keys.len() == b.keys@.len(),
            forall|k: int| 0 <= k < i ==> keys[k] != sequence@,
        decreases b.keys.len() - i,
    {
        if same_keys(&b.keys[i], sequence) {
            assert(keys[i as int] == b.keys@[i as int]@);
            assert(keys[i as int] == sequence@);
            assert(keys.contains(sequence@));
            return true;
        }
        i += 1;
    }
    false
}

fn begins_exec(b: &Binding, sequence: &Vec<Key>, context: Context) -> (r: bool)
    ensures
        r == begins(b@, sequence@, context),
{
    if !applies_exec(b, context) {
        return false;
    }
    let ghost keys = b@.keys;
    let mut i: usize = 0;
    while i < b.keys.len()
        invariant
            keys == b@.keys,
            applies(b@, context),
            i <= b.keys.len(),
            keys.len() == b.keys@.len(),
            forall|k: int|
                0 <= k < i ==> !((#[trigger] keys[k]).len() > sequence@.len() && keys[k].subrange(
                    0,
                    sequence@.len() as int,
                ) == sequence@),
        decreases b.keys.len() - i,
    {
        if begins_with(&b.keys[i], sequence) {
            assert(keys[i as int] == b.keys@[i as int]@);
            assert(0 <= i < keys.len() && (keys[i as int]).len() > sequence@.len()
                && keys[i as int].subrange(0, sequence@.len() as int) == sequence@);
            return true;
        }
        i += 1;
    }
    false
}

/// Resolve `key`, pressed after `pending`, in `context`.
///
/// A complete match wins over a prefix match, so a binding on `g` would shadow `g g`
/// rather than becoming unreachable.
pub fn resolve(pending: &[Key], key: Key, context: Context) -> (r: Resolved)
    ensures
        r == resolution(pending@, key, context),
{
    let mut sequence: Vec<Key> = Vec::new();
    let mut j: usize = 0;
    while j < pending.len()
        invariant
            j <= pending.len(),
            sequence@ == pending@.subrange(0, j as int),
        decreases pending.len() - j,
    {
        sequence.push(pending[j]);
        j += 1;
    }
    sequence.push(key);
    assert(sequence@ =~= pending@.push(key));
    let table = keymap();
    let ghost spec_table = keymap_spec();
    let mut i: usize = 0;
    while i < table.len()
        invariant
            view_all(table@) == spec_table,
            spec_table == keymap_spec(),
            sequence@ == pending@.push(key),
            i <= table.len(),
            table@.len() == spec_table.len(),
            first_completed(spec_table, 0, sequence@, context) == first_completed(
                spec_table,
                i as int,
                sequence@,
                context,
            ),
        decreases table.len() - i,
    {
        assert(spec_table[i as int] == table@[i as int]@);
        if completes_exec(&table[i], &sequence, context) {
            assert(first_completed(spec_table, i as int, sequence@, context) == Some(
                table@[i as int].action,
            ));
            return Resolved::Action(table[i].action);
        }
        i += 1;
    }
    let mut i: usize = 0;
    while i < table.len()
        invariant
            view_all(table@) == spec_table,
            spec_table == keymap_spec(),
            sequence@ == pending@.push(key),
            i <= table.len(),
            table@.len() == spec_table.len(),
            first_completed(spec_table, 0, sequence@, context) == None::<Action>,
            sequence@ == pending@.push(key),
            forall|k: int| 0 <= k < i ==> !begins(#[trigger] spec_table[k], sequence@, context),
        decreases table.len() - i,
    {
        assert(spec_table[i as int] == table@[i as int]@);
        if begins_exec(&table[i], &sequence, context) {
            assert(begins(spec_table[i as int], sequence@, context));
            return Resolved::Pending;
        }
        i += 1;
    }
    Resolved::Unbound
}

/// Whether a binding belongs in help's `group` section for `context`.
pub open spec fn listed(b: BindingView, group: Group, context: Context) -> bool {
    b.group == group && applies(b, context)
}

/// The bindings in `group` that apply in `context`, for the help modal, in table order.
pub fn bindings_in(group: Group, context: Context) -> (out: Vec<Binding>)
    ensures
        view_all(out@) == keymap_spec().filter(|b: BindingView| listed(b, group, context)),
{
    let table = keymap();
    let ghost spec_table = keymap_spec();
    let ghost pred = |b: BindingView| listed(b, group, context);
    let mut out: Vec<Binding> = Vec::new();
    let mut i: usize = 0;
    while i < table.len()
        invariant
            view_all(table@) == spec_table,
            spec_table == keymap_spec(),
            pred == (|b: BindingView| listed(b, group, context)),
            i <= table.len(),
            table@.len() == spec_table.len(),
            view_all(out@) == spec_table.take(i as int).filter(pred),
        decreases table.len() - i,
    {
        let b = &table[i];
        proof {
            assert(spec_table[i as int] == table@[i as int]@);
            assert(spec_table.take(i + 1).drop_last() =~= spec_table.take(i as int));
            reveal(Seq::filter);
        }
        let ghost before = out@;
        if b.group == group && applies_exec(b, context) {
            let copy = b.duplicate();
            out.push(copy);
            proof {
                assert(out@ == before.push(copy));
                assert(view_all(out@) =~= view_all(before).push(spec_table[i as int]));
            }
        }
        proof {
            assert(view_all(out@) =~= spec_table.take(i + 1).filter(pred));
        }
        i += 1;
    }
    proof {
        assert(spec_table.take(spec_table.len() as int) =~= spec_table);
    }
    out
}

/// One line of the help modal.
///
/// Built here rather than in the renderer so the modal's height, its scroll limit and what
/// it draws are all counted from the same list.
#[derive(Debug)]
pub enum HelpRow {
    /// A section heading.
    Heading(&'static str),
    /// A binding.
    Binding(Binding),
    /// A blank line between sections.
    Blank,
}

/// A help line as a value.
pub enum HelpRowView {
    Heading(Seq<char>),
    Binding(BindingView),
    Blank,
}

impl View for HelpRow {
    type V = HelpRowView;

    open spec fn view(&self) -> HelpRowView {
        match self {
            HelpRow::Heading(h) => HelpRowView::Heading(h@),
            HelpRow::Binding(b) => HelpRowView::Binding(b@),
            HelpRow::Blank => HelpRowView::Blank,
        }
    }
}

/// Help's section for one group: its heading, its bindings, and a blank line.
pub open spec fn section(group: Group, context: Context) -> Seq<HelpRowView> {
    seq![HelpRowView::Heading(heading_text(group))] + keymap_spec().filter(
        |b: BindingView| listed(b, group, context),
    ).map_values(|b: BindingView| HelpRowView::Binding(b)) + seq![HelpRowView::Blank]
}

/// The sections of the first `n` groups, in help's order.
pub open spec fn sections(n: int, context: Context) -> Seq<HelpRowView>
    decreases n,
{
    if n <= 0 {
        Seq::empty()
    } else {
        sections(n - 1, context) + section(all_groups()[n - 1], context)
    }
}

/// The help modal's content for `context`: every group's section, without the blank
/// that would trail the last one.
pub open spec fn help_spec(context: Context) -> Seq<HelpRowView> {
    sections(4, context).drop_last()
}

/// The help modal's content, in order, for `context`.
pub fn help_rows(context: Context) -> (rows: Vec<HelpRow>)
    ensures
        rows@.map_values(|r: HelpRow| r@) == help_spec(context),
{
    let groups = Group::all();
    let mut rows: Vec<HelpRow> = Vec::new();
    let mut i: usize = 0;
    while i < groups.len()
        invariant
            groups@ == all_groups(),
            i <= groups.len(),
            rows@.map_values(|r: HelpRow| r@) == sections(i as int, context),
        decreases groups.len() - i,
    {
        let group = groups[i];
        let ghost before = rows@.map_values(|r: HelpRow| r@);
        let ghost start = rows@;
        rows.push(HelpRow::Heading(group.heading()));
        let found = bindings_in(group, context);
        let ghost listed_views = view_all(found@);
        let mut found = found;
        let n = found.len();
        let ghost snapshot = found@;
        // Reverse so that popping hands the bindings back in table order.
        let mut reversed: Vec<Binding> = Vec::new();
        while found.len() > 0
            invariant
                snapshot.len() == n,
                found@ == snapshot.take(found@.len() as int),
                reversed@.len() + found@.len() == n,
                forall|j: int|
                    0 <= j < reversed@.len() ==> (#[trigger] reversed@[j])@ == snapshot[n - 1 - j]@,
            decreases found.len(),
        {
            let b = found.pop().unwrap();
            proof {
                assert(b == snapshot[found@.len() as int]);
            }
            reversed.push(b);
            proof {
                assert(found@ =~= snapshot.take(found@.len() as int));
            }
        }
        let ghost rows_before = rows@;
        while reversed.len() > 0
            invariant
                snapshot.len() == n,
                reversed@.len() <= n,
                forall|j: int|
                    0 <= j < reversed@.len() ==> (#[trigger] reversed@[j])@ == snapshot[n - 1 - j]@,
                rows@.len() == rows_before.len() + (n - reversed@.len()),
                forall|j: int| 0 <= j < rows_before.len() ==> rows@[j] == rows_before[j],
                forall|j: int|
                    0 <= j < n - reversed@.len() ==> (#[trigger] rows@[rows_before.len() + j])@
                        == HelpRowView::Binding(snapshot[j]@),
            decreases reversed.len(),
        {
            let b = reversed.pop().unwrap();
            proof {
                assert(b@ == snapshot[n - 1 - reversed@.len()]@);
            }
            rows.push(HelpRow::Binding(b));
        }
        rows.push(HelpRow::Blank);
        proof {
            let sec = section(group, context);
            let mapped = listed_views.map_values(|b: BindingView| HelpRowView::Binding(b));
            assert(listed_views == keymap_spec().filter(|b: BindingView| listed(b, group, context)));
            assert(listed_views.len() == n);
            let after = rows@.map_values(|r: HelpRow| r@);
            assert(rows_before.len() == start.len() + 1);
            assert(rows_before[start.len() as int]@ == HelpRowView::Heading(heading_text(group)));
            assert(after.len() == sec.len() + before.len());
            assert forall|j: int| 0 <= j < after.len() implies after[j] == (before + sec)[j] by {
                if j < start.len() {
                    assert(rows@[j] == rows_before[j]);
                    assert(rows_before[j] == start[j]);
                } else if j == start.len() {
                    assert(rows@[j] == rows_before[j]);
                } else if j < start.len() + 1 + n {
                    let m = j - start.len() - 1;
                    assert(rows@[rows_before.len() + m]@ == HelpRowView::Binding(snapshot[m]@));
                    assert(listed_views[m] == snapshot[m]@);
                } else {
                    assert(j == after.len() - 1);
                }
            }
            assert(after =~= before + sec);
            assert(all_groups()[i as int] == group);
        }
        i += 1;
    }
    proof {
        assert(rows@.len() > 0);
    }
    rows.pop();
    proof {
        let full = sections(4, context);
        assert(rows@.map_values(|r: HelpRow| r@) =~= full.drop_last());
    }
    rows
}

} // verus!
