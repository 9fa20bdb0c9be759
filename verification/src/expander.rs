//! The text expander's state machine: the characters typed so far, and which
//! shortcut, if any, a space or an enter completes.

use vstd::prelude::*;
use std::path::PathBuf;
use crate::db::Shortcut;
use crate::text::{
    char_width, char_width_exec, chars_of, ends_with, ends_with_exec, lemma_utf8_len_first,
    lower_text, subvec, all_ascii, ascii_lowercase, lemma_ascii_lowercase_keeps_suffix, to_lowercase_chars, utf8_len,
};

verus! {

/// The most bytes (in UTF-8) the buffer keeps.
pub const BUFFER_LIMIT: usize = 100;

/// The keys the expander tells apart.
pub enum Key {
    Space,
    Return,
    Backspace,
    Tab,
    Escape,
    UpArrow,
    DownArrow,
    LeftArrow,
    RightArrow,
    Home,
    End,
    PageUp,
    PageDown,
    ShiftLeft,
    ShiftRight,
    ControlLeft,
    ControlRight,
    Alt,
    AltGr,
    MetaLeft,
    MetaRight,
    CapsLock,
    /// Any other key: what it types is given by the event's name.
    Other,
}

/// The kind of a keyboard event.
pub enum EventType {
    KeyPress(Key),
    /// A key release, or any other event: the expander ignores it.
    Other,
}

/// A keyboard event: its kind, and the text the key types under the user's
/// layout, when the system reports one.
pub struct Event {
    pub event_type: EventType,
    pub name: Option<String>,
}

/// What a key press does to the buffer.
pub enum KeyAction {
    /// Space or enter: look for a completed trigger, then empty the buffer.
    Complete,
    /// Backspace: drop the last character.
    Erase,
    /// Tab, escape, arrows, home, end, page up and down: empty the buffer.
    Reset,
    /// A modifier alone: nothing.
    Ignore,
    /// Any other key: the character it types, if it types one.
    Type,
}

/// What each key does.
pub open spec fn key_action(k: Key) -> KeyAction {
    match k {
        Key::Space | Key::Return => KeyAction::Complete,
        Key::Backspace => KeyAction::Erase,
        Key::Tab | Key::Escape | Key::UpArrow | Key::DownArrow | Key::LeftArrow | Key::RightArrow
        | Key::Home | Key::End | Key::PageUp | Key::PageDown => KeyAction::Reset,
        Key::ShiftLeft | Key::ShiftRight | Key::ControlLeft | Key::ControlRight | Key::Alt
        | Key::AltGr | Key::MetaLeft | Key::MetaRight | Key::CapsLock => KeyAction::Ignore,
        Key::Other => KeyAction::Type,
    }
}

/// What the key `k` does.
pub fn classify_key(k: &Key) -> (a: KeyAction)
    ensures
        a == key_action(*k),
{
    match k {
        Key::Space | Key::Return => KeyAction::Complete,
        Key::Backspace => KeyAction::Erase,
        Key::Tab | Key::Escape | Key::UpArrow | Key::DownArrow | Key::LeftArrow | Key::RightArrow
        | Key::Home | Key::End | Key::PageUp | Key::PageDown => KeyAction::Reset,
        Key::ShiftLeft | Key::ShiftRight | Key::ControlLeft | Key::ControlRight | Key::Alt
        | Key::AltGr | Key::MetaLeft | Key::MetaRight | Key::CapsLock => KeyAction::Ignore,
        Key::Other => KeyAction::Type,
    }
}

// ---------------------------------------------------------------------------
// Longest completed trigger
// ---------------------------------------------------------------------------

/// What a completed trigger reports: its length in characters plus one for
/// the space or enter that completed it, which is how many characters to erase.
pub open spec fn erase_count(trigger: Seq<char>) -> int {
    trigger.len() + 1int
}

/// `r` is the answer for shortcuts with the given triggers and contents, where
/// `matched(i)` tells whether trigger `i` was completed: nothing when none
/// was, else the erase count and content of the first of the longest completed
/// triggers.
pub open spec fn is_longest_match(
    r: Option<(usize, String)>,
    matched: spec_fn(int) -> bool,
    triggers: Seq<Seq<char>>,
    contents: Seq<Seq<char>>,
) -> bool {
    match r {
        None => forall|j: int| 0 <= j < triggers.len() ==> !#[trigger] matched(j),
        Some(found) => exists|k: int|
            {
                &&& 0 <= k < triggers.len()
                &&& matched(k)
                &&& found.0 == erase_count(triggers[k])
                &&& found.1@ == contents[k]
                &&& forall|j: int|
                    0 <= j < triggers.len() && matched(j) ==> erase_count(#[trigger] triggers[j])
                        <= found.0
                &&& forall|j: int|
                    0 <= j < k && matched(j) ==> erase_count(#[trigger] triggers[j]) < found.0
            },
    }
}

/// The triggers of a list of shortcuts.
pub open spec fn triggers_of(shortcuts: Seq<(String, String)>) -> Seq<Seq<char>> {
    shortcuts.map_values(|p: (String, String)| p.0@)
}

/// The contents of a list of shortcuts.
pub open spec fn contents_of(shortcuts: Seq<(String, String)>) -> Seq<Seq<char>> {
    shortcuts.map_values(|p: (String, String)| p.1@)
}

/// Every trigger's erase count fits in `usize`.
pub open spec fn triggers_fit(triggers: Seq<Seq<char>>) -> bool {
    forall|i: int| 0 <= i < triggers.len() ==> (#[trigger] triggers[i]).len() < usize::MAX
}

/// The text typed so far completes `trigger`: it ends with it, both lowercased.
pub open spec fn trigger_matches(typed: Seq<char>, trigger: Seq<char>) -> bool {
    ends_with(lower_text(typed), lower_text(trigger))
}

/// Picks the longest trigger that the lowercased text `typed_lower` ends with,
/// given the lowercased triggers: the first of the longest on a tie.
pub fn pick_longest_trigger(
    typed_lower: &Vec<char>,
    triggers_lower: &Vec<Vec<char>>,
    shortcuts: &Vec<(String, String)>,
) -> (r: Option<(usize, String)>)
    requires
        triggers_lower.len() == shortcuts.len(),
        triggers_fit(triggers_of(shortcuts@)),
    ensures
        is_longest_match(
            r,
            |j: int| ends_with(typed_lower@, triggers_lower@[j]@),
            triggers_of(shortcuts@),
            contents_of(shortcuts@),
        ),
{
    let ghost triggers = triggers_of(shortcuts@);
    let ghost contents = contents_of(shortcuts@);
    let ghost matched = |j: int| ends_with(typed_lower@, triggers_lower@[j]@);
    let mut best: Option<(usize, String)> = None;
    let ghost mut best_k: int = 0;
    let mut i: usize = 0;
    while i < shortcuts.len()
        invariant
            i <= shortcuts.len(),
            triggers_lower.len() == shortcuts.len(),
            triggers == triggers_of(shortcuts@),
            contents == contents_of(shortcuts@),
            matched == (|j: int| ends_with(typed_lower@, triggers_lower@[j]@)),
            triggers_fit(triggers),
            match best {
                None => forall|j: int| 0 <= j < i ==> !#[trigger] matched(j),
                Some(found) => {
                    &&& 0 <= best_k < i
                    &&& matched(best_k)
                    &&& found.0 == erase_count(triggers[best_k])
                    &&& found.1@ == contents[best_k]
                    &&& forall|j: int|
                        0 <= j < i && matched(j) ==> erase_count(#[trigger] triggers[j]) <= found.0
                    &&& forall|j: int|
                        0 <= j < best_k && matched(j) ==> erase_count(#[trigger] triggers[j])
                            < found.0
                },
            },
        decreases shortcuts.len() - i,
    {
        if ends_with_exec(typed_lower, &triggers_lower[i]) {
            let trigger_chars = chars_of(shortcuts[i].0.as_str());
            assert(trigger_chars@ == triggers[i as int]);
            let w = trigger_chars.len() + 1;
            let better = match &best {
                None => true,
                Some(found) => w > found.0,
            };
            if better {
                best = Some((w, shortcuts[i].1.clone()));
                proof {
                    best_k = i as int;
                }
            }
        }
        i += 1;
    }
    assert(is_longest_match(best, matched, triggers, contents)) by {
        if best is Some {
            assert(0 <= best_k < triggers.len());
        }
    }
    best
}

// ---------------------------------------------------------------------------
// The buffer
// ---------------------------------------------------------------------------

/// The longest suffix of `s` that fits in `limit` bytes of UTF-8: `s` with
/// characters dropped from the front until it fits.
pub open spec fn keep_last_bytes(s: Seq<char>, limit: nat) -> Seq<char>
    decreases s.len(),
{
    if utf8_len(s) <= limit || s.len() == 0 {
        s
    } else {
        keep_last_bytes(s.drop_first(), limit)
    }
}

/// The loaded shortcuts: those read, as trigger and content pairs, or none
/// when the read failed.
pub open spec fn loaded_pairs(loaded: Result<Vec<Shortcut>, String>) -> Seq<(Seq<char>, Seq<char>)> {
    match loaded {
        Ok(v) => v@.map_values(|s: Shortcut| (s.trigger@, s.content@)),
        Err(_) => Seq::empty(),
    }
}

/// The triggers of the loaded shortcuts fit the erase count in `usize`.
pub open spec fn loaded_fit(loaded: Result<Vec<Shortcut>, String>) -> bool {
    forall|i: int|
        0 <= i < loaded_pairs(loaded).len() ==> (#[trigger] loaded_pairs(loaded)[i]).0.len()
            < usize::MAX
}

/// The triggers of the loaded shortcuts.
pub open spec fn loaded_triggers(loaded: Result<Vec<Shortcut>, String>) -> Seq<Seq<char>> {
    loaded_pairs(loaded).map_values(|p: (Seq<char>, Seq<char>)| p.0)
}

/// The contents of the loaded shortcuts.
pub open spec fn loaded_contents(loaded: Result<Vec<Shortcut>, String>) -> Seq<Seq<char>> {
    loaded_pairs(loaded).map_values(|p: (Seq<char>, Seq<char>)| p.1)
}

/// What the typed text becomes after `event`.
pub open spec fn typed_after(typed: Seq<char>, event: Event) -> Seq<char> {
    match event.event_type {
        EventType::KeyPress(k) => match key_action(k) {
            KeyAction::Complete => Seq::empty(),
            KeyAction::Erase => if typed.len() > 0 {
                typed.drop_last()
            } else {
                typed
            },
            KeyAction::Reset => Seq::empty(),
            KeyAction::Ignore => typed,
            KeyAction::Type => match event.name {
                Some(n) => if n@.len() == 1 {
                    keep_last_bytes(typed.push(n@[0]), BUFFER_LIMIT as nat)
                } else {
                    Seq::empty()
                },
                None => typed,
            },
        },
        EventType::Other => typed,
    }
}

/// `event` is a press of space or enter.
pub open spec fn completes(event: Event) -> bool {
    match event.event_type {
        EventType::KeyPress(k) => key_action(k) == KeyAction::Complete,
        EventType::Other => false,
    }
}

proof fn lemma_keep_last_bytes_fits(s: Seq<char>, limit: nat)
    ensures
        utf8_len(keep_last_bytes(s, limit)) <= limit,
    decreases s.len(),
{
    if utf8_len(s) <= limit || s.len() == 0 {
        if s.len() == 0 {
            assert(utf8_len(s) == 0);
        }
    } else {
        lemma_keep_last_bytes_fits(s.drop_first(), limit);
    }
}

proof fn lemma_utf8_len_drop_last_le(s: Seq<char>)
    requires
        s.len() > 0,
    ensures
        utf8_len(s.drop_last()) <= utf8_len(s),
{
}

proof fn lemma_utf8_len_push(s: Seq<char>, c: char)
    ensures
        utf8_len(s.push(c)) == utf8_len(s) + char_width(c),
{
    assert(s.push(c).drop_last() =~= s);
}

proof fn lemma_longest_match_congruent(
    r: Option<(usize, String)>,
    m1: spec_fn(int) -> bool,
    m2: spec_fn(int) -> bool,
    triggers: Seq<Seq<char>>,
    contents: Seq<Seq<char>>,
)
    requires
        is_longest_match(r, m1, triggers, contents),
        forall|j: int| 0 <= j < triggers.len() ==> #[trigger] m1(j) == m2(j),
    ensures
        is_longest_match(r, m2, triggers, contents),
{
    if let Some(found) = r {
        let k = choose|k: int|
            {
                &&& 0 <= k < triggers.len()
                &&& m1(k)
                &&& found.0 == erase_count(triggers[k])
                &&& found.1@ == contents[k]
                &&& forall|j: int|
                    0 <= j < triggers.len() && m1(j) ==> erase_count(#[trigger] triggers[j])
                        <= found.0
                &&& forall|j: int|
                    0 <= j < k && m1(j) ==> erase_count(#[trigger] triggers[j]) < found.0
            };
        assert(m1(k) == m2(k));
        assert forall|j: int| 0 <= j < triggers.len() && m2(j) implies erase_count(
            #[trigger] triggers[j],
        ) <= found.0 by {
            assert(m1(j) == m2(j));
        }
        assert forall|j: int| 0 <= j < k && m2(j) implies erase_count(#[trigger] triggers[j])
            < found.0 by {
            assert(m1(j) == m2(j));
        }
    } else {
        assert forall|j: int| 0 <= j < triggers.len() implies !#[trigger] m2(j) by {
            assert(m1(j) == m2(j));
        }
    }
}

proof fn lemma_pairs_split(v: Seq<(String, String)>, loaded: Result<Vec<Shortcut>, String>)
    requires
        v.map_values(|p: (String, String)| (p.0@, p.1@)) == loaded_pairs(loaded),
    ensures
        triggers_of(v) == loaded_triggers(loaded),
        contents_of(v) == loaded_contents(loaded),
{
    let m = v.map_values(|p: (String, String)| (p.0@, p.1@));
    assert(triggers_of(v) =~= loaded_triggers(loaded)) by {
        assert forall|i: int| 0 <= i < v.len() implies triggers_of(v)[i] == loaded_triggers(
            loaded,
        )[i] by {
            assert(m[i] == (v[i].0@, v[i].1@));
        }
    }
    assert(contents_of(v) =~= loaded_contents(loaded)) by {
        assert forall|i: int| 0 <= i < v.len() implies contents_of(v)[i] == loaded_contents(
            loaded,
        )[i] by {
            assert(m[i] == (v[i].0@, v[i].1@));
        }
    }
}

/// Reloads the shortcuts of the running expander, if there is one.
pub fn reload_shortcuts(expander: &mut Option<TypeBuffer>, loaded: Result<Vec<Shortcut>, String>)
    requires
        loaded_fit(loaded),
    ensures
        match (*old(expander), *final(expander)) {
            (Some(before), Some(after)) => {
                &&& after.typed() == before.typed()
                &&& after.path() == before.path()
                &&& after.trigger_list() == loaded_triggers(loaded)
                &&& after.content_list() == loaded_contents(loaded)
            },
            (None, None) => true,
            _ => false,
        },
{
    if let Some(b) = expander {
        b.reload(loaded);
    }
}

/// Dropping a first character takes its width off the byte length.
proof fn lemma_suffix_step(s: Seq<char>, k: int)
    requires
        0 <= k < s.len(),
    ensures
        utf8_len(s.subrange(k, s.len() as int)) == char_width(s[k]) + utf8_len(
            s.subrange(k + 1, s.len() as int),
        ),
{
    let t = s.subrange(k, s.len() as int);
    lemma_utf8_len_first(t);
    assert(t.drop_first() =~= s.subrange(k + 1, s.len() as int));
}

/// Shorter suffixes take no more bytes.
proof fn lemma_suffix_mono(s: Seq<char>, k: int, m: int)
    requires
        0 <= k <= m <= s.len(),
    ensures
        utf8_len(s.subrange(m, s.len() as int)) <= utf8_len(s.subrange(k, s.len() as int)),
    decreases m - k,
{
    if k < m {
        lemma_suffix_step(s, k);
        lemma_suffix_mono(s, k + 1, m);
    }
}

/// Where the suffix from `j` fits and every longer suffix from `i` on does
/// not, dropping from the front stops at `j`.
proof fn lemma_keep_last_bytes_at(s: Seq<char>, limit: nat, i: int, j: int)
    requires
        0 <= i <= j <= s.len(),
        utf8_len(s.subrange(j, s.len() as int)) <= limit,
        j > i ==> utf8_len(s.subrange(j - 1, s.len() as int)) > limit,
    ensures
        keep_last_bytes(s.subrange(i, s.len() as int), limit) == s.subrange(j, s.len() as int),
    decreases j - i,
{
    if i < j {
        let t = s.subrange(i, s.len() as int);
        lemma_suffix_mono(s, i, j - 1);
        assert(t.drop_first() =~= s.subrange(i + 1, s.len() as int));
        lemma_keep_last_bytes_at(s, limit, i + 1, j);
    }
}

/// The longest suffix of `s` that fits in `limit` bytes of UTF-8.
pub fn keep_last_bytes_exec(s: &Vec<char>, limit: usize) -> (r: Vec<char>)
    ensures
        r@ == keep_last_bytes(s@, limit as nat),
{
    let n = s.len();
    let mut j: usize = n;
    let mut acc: usize = 0;
    assert(utf8_len(s@.subrange(n as int, n as int)) == 0) by {
        assert(s@.subrange(n as int, n as int).len() == 0);
    }
    loop
        invariant
            n == s.len(),
            j <= n,
            acc == utf8_len(s@.subrange(j as int, n as int)),
            acc <= limit,
        ensures
            j <= n,
            utf8_len(s@.subrange(j as int, n as int)) <= limit,
            j > 0 ==> utf8_len(s@.subrange(j - 1, n as int)) > limit,
        decreases j,
    {
        if j == 0 {
            break;
        }
        proof {
            lemma_suffix_step(s@, j - 1);
        }
        let w = char_width_exec(s[j - 1]);
        if w > limit - acc {
            break;
        }
        acc = acc + w;
        j = j - 1;
    }
    proof {
        lemma_keep_last_bytes_at(s@, limit as nat, 0, j as int);
        assert(s@.subrange(0, n as int) =~= s@);
    }
    subvec(s, j, n)
}

/// The buffer of typed characters, with the shortcuts it completes.
pub struct TypeBuffer {
    buffer: Vec<char>,
    db_path: PathBuf,
    shortcuts: Vec<(String, String)>,
}

impl TypeBuffer {
    /// The characters typed since the buffer was last emptied (at most the
    /// last 100 bytes of them).
    pub closed spec fn typed(&self) -> Seq<char> {
        self.buffer@
    }

    /// The triggers of the shortcuts, in order.
    pub closed spec fn trigger_list(&self) -> Seq<Seq<char>> {
        triggers_of(self.shortcuts@)
    }

    /// The contents of the shortcuts, in the same order.
    pub closed spec fn content_list(&self) -> Seq<Seq<char>> {
        contents_of(self.shortcuts@)
    }

    /// The path of the database the shortcuts are reloaded from.
    pub closed spec fn path(&self) -> PathBuf {
        self.db_path
    }

    /// The buffer holds at most 100 bytes of UTF-8, and every trigger's erase
    /// count fits in `usize`.
    #[verifier::type_invariant]
    spec fn inv(self) -> bool {
        &&& utf8_len(self.buffer@) <= BUFFER_LIMIT
        &&& triggers_fit(triggers_of(self.shortcuts@))
    }

    /// A buffer with nothing typed, the database path, and the loaded
    /// shortcuts.
    pub fn new(db_path: PathBuf, loaded: Result<Vec<Shortcut>, String>) -> (r: Self)
        requires
            loaded_fit(loaded),
        ensures
            r.typed() == Seq::<char>::empty(),
            r.path() == db_path,
            r.trigger_list() == loaded_triggers(loaded),
            r.content_list() == loaded_contents(loaded),
    {
        let ghost l = loaded;
        let shortcuts = Self::load_shortcuts(loaded);
        proof {
            lemma_pairs_split(shortcuts@, l);
            assert(utf8_len(Seq::<char>::empty()) == 0);
        }
        TypeBuffer { buffer: Vec::new(), db_path, shortcuts }
    }

    /// Replaces the shortcuts with freshly loaded ones; what was typed stays.
    pub fn reload(&mut self, loaded: Result<Vec<Shortcut>, String>)
        requires
            loaded_fit(loaded),
        ensures
            final(self).typed() == old(self).typed(),
            final(self).path() == old(self).path(),
            final(self).trigger_list() == loaded_triggers(loaded),
            final(self).content_list() == loaded_contents(loaded),
    {
        proof {
            use_type_invariant(&*self);
        }
        let ghost l = loaded;
        let shortcuts = Self::load_shortcuts(loaded);
        proof {
            lemma_pairs_split(shortcuts@, l);
        }
        self.shortcuts = shortcuts;
    }

    /// The path of the database.
    pub fn db_path(&self) -> (r: &PathBuf)
        ensures
            *r == self.path(),
    {
        &self.db_path
    }

    /// The longest shortcut trigger that the typed text ends with, compared
    /// without case: the number of characters to erase (its length in
    /// characters plus one for the space or enter) and the content to paste.
    pub fn check_triggers(&self) -> (r: Option<(usize, String)>)
        ensures
            is_longest_match(
                r,
                |j: int| trigger_matches(self.typed(), self.trigger_list()[j]),
                self.trigger_list(),
                self.content_list(),
            ),
    {
        proof {
            use_type_invariant(self);
        }
        let typed_lower = to_lowercase_chars(&self.buffer);
        let mut lowered: Vec<Vec<char>> = Vec::new();
        let mut i: usize = 0;
        while i < self.shortcuts.len()
            invariant
                i <= self.shortcuts.len(),
                lowered.len() == i,
                forall|j: int|
                    0 <= j < i ==> (#[trigger] lowered@[j])@ == lower_text(
                        triggers_of(self.shortcuts@)[j],
                    ),
            decreases self.shortcuts.len() - i,
        {
            let t = chars_of(self.shortcuts[i].0.as_str());
            lowered.push(to_lowercase_chars(&t));
            i += 1;
        }
        let r = pick_longest_trigger(&typed_lower, &lowered, &self.shortcuts);
        proof {
            lemma_longest_match_congruent(
                r,
                |j: int| ends_with(typed_lower@, lowered@[j]@),
                |j: int| trigger_matches(self.typed(), self.trigger_list()[j]),
                self.trigger_list(),
                self.content_list(),
            );
        }
        r
    }

    /// Processes one keyboard event. Space or enter reports the longest
    /// completed trigger and empties the buffer; backspace drops the last
    /// character; navigation keys empty the buffer; modifiers do nothing; any
    /// other key adds the character it types under the user's layout when its
    /// name is a single character, whatever its width (the buffer then keeps
    /// its longest suffix of at most 100 bytes), and empties the buffer when
    /// the name is longer, such as `Delete` or `F1`.
    pub fn on_event(&mut self, event: &Event) -> (r: Option<(usize, String)>)
        ensures
            final(self).typed() == typed_after(old(self).typed(), *event),
            utf8_len(final(self).typed()) <= BUFFER_LIMIT,
            final(self).trigger_list() == old(self).trigger_list(),
            final(self).content_list() == old(self).content_list(),
            final(self).path() == old(self).path(),
            completes(*event) ==> is_longest_match(
                r,
                |j: int| trigger_matches(old(self).typed(), old(self).trigger_list()[j]),
                old(self).trigger_list(),
                old(self).content_list(),
            ),
            !completes(*event) ==> r is None,
    {
        proof {
            use_type_invariant(&*self);
        }
        assert(utf8_len(Seq::<char>::empty()) == 0);
        if let EventType::KeyPress(key) = &event.event_type {
            match classify_key(key) {
                KeyAction::Complete => {
                    let result = self.check_triggers();
                    self.buffer = Vec::new();
                    return result;
                },
                KeyAction::Erase => {
                    let mut typed: Vec<char> = Vec::new();
                    std::mem::swap(&mut typed, &mut self.buffer);
                    let ghost before = typed@;
                    typed.pop();
                    proof {
                        if before.len() > 0 {
                            lemma_utf8_len_drop_last_le(before);
                        }
                    }
                    self.buffer = typed;
                    return None;
                },
                KeyAction::Reset => {
                    self.buffer = Vec::new();
                    return None;
                },
                KeyAction::Ignore => {
                    return None;
                },
                KeyAction::Type => {},
            }
            if let Some(name) = &event.name {
                let chars = chars_of(name.as_str());
                if chars.len() == 1 {
                    let c = chars[0];
                    let mut typed: Vec<char> = Vec::new();
                    std::mem::swap(&mut typed, &mut self.buffer);
                    let ghost before = typed@;
                    typed.push(c);
                    let kept = keep_last_bytes_exec(&typed, BUFFER_LIMIT);
                    proof {
                        lemma_keep_last_bytes_fits(before.push(c), BUFFER_LIMIT as nat);
                    }
                    self.buffer = kept;
                } else {
                    self.buffer = Vec::new();
                }
            }
        }
        None
    }

    /// The shortcuts read from the database as trigger and content pairs; a
    /// failed read gives none.
    pub fn load_shortcuts(loaded: Result<Vec<Shortcut>, String>) -> (r: Vec<(String, String)>)
        ensures
            r@.map_values(|p: (String, String)| (p.0@, p.1@)) == loaded_pairs(loaded),
    {
        let mut r: Vec<(String, String)> = Vec::new();
        match loaded {
            Ok(v) => {
                let ghost src = v@;
                let mut i: usize = 0;
                let n = v.len();
                while i < n
                    invariant
                        n == src.len(),
                        v@ == src,
                        i <= n,
                        r@.map_values(|p: (String, String)| (p.0@, p.1@)) =~= src.take(
                            i as int,
                        ).map_values(|s: Shortcut| (s.trigger@, s.content@)),
                    decreases n - i,
                {
                    let s = &v[i];
                    let ghost old_r = r@;
                    r.push((s.trigger.clone(), s.content.clone()));
                    assert(r@.map_values(|p: (String, String)| (p.0@, p.1@)) =~= old_r.map_values(
                        |p: (String, String)| (p.0@, p.1@),
                    ).push((src[i as int].trigger@, src[i as int].content@)));
                    assert(src.take(i + 1).map_values(|s: Shortcut| (s.trigger@, s.content@))
                        =~= src.take(i as int).map_values(
                        |s: Shortcut| (s.trigger@, s.content@),
                    ).push((src[i as int].trigger@, src[i as int].content@)));
                    i += 1;
                }
                assert(src.take(n as int) =~= src);
                r
            },
            Err(_) => {
                assert(r@.map_values(|p: (String, String)| (p.0@, p.1@)) =~= Seq::empty());
                r
            },
        }
    }
}


// ---------------------------------------------------------------------------
// Pasting the content
// ---------------------------------------------------------------------------

/// How long to wait after setting the clipboard before pasting, in
/// milliseconds.
pub const SETTLE_MS: u64 = 30;

/// How long to wait after pasting before the clipboard is restored, in
/// milliseconds.
pub const RESTORE_DELAY_MS: u64 = 100;

/// One step of pasting a shortcut's content through the clipboard.
pub enum PasteStep {
    /// Tell the clipboard monitor to ignore the next change, the app's own.
    SkipNextChange,
    /// Put this text on the clipboard.
    SetText(String),
    /// Wait this many milliseconds.
    Sleep(u64),
    /// Press and release Ctrl+V.
    PasteCombo,
}

/// The steps that paste `content` once the trigger has been erased, given what
/// the clipboard held before (`None` when it held no text): set the content,
/// wait, paste, wait, and put the old text back if there was one. Each write
/// to the clipboard is announced to the monitor first.
pub fn paste_steps(content: &str, old_text: Option<String>) -> (r: Vec<PasteStep>)
    ensures
        r.len() == if old_text is Some { 7int } else { 5int },
        r[0] is SkipNextChange,
        r[1] matches PasteStep::SetText(t) && t@ == content@,
        r[2] == PasteStep::Sleep(SETTLE_MS),
        r[3] is PasteCombo,
        r[4] == PasteStep::Sleep(RESTORE_DELAY_MS),
        old_text is Some ==> r[5] is SkipNextChange,
        old_text is Some ==> (r[6] matches PasteStep::SetText(t) && t@ == old_text->Some_0@),
{
    let mut r: Vec<PasteStep> = Vec::new();
    r.push(PasteStep::SkipNextChange);
    r.push(PasteStep::SetText(content.to_string()));
    r.push(PasteStep::Sleep(SETTLE_MS));
    r.push(PasteStep::PasteCombo);
    r.push(PasteStep::Sleep(RESTORE_DELAY_MS));
    if let Some(old) = old_text {
        r.push(PasteStep::SkipNextChange);
        r.push(PasteStep::SetText(old));
    }
    r
}

// ---------------------------------------------------------------------------
// Laws
// ---------------------------------------------------------------------------

/// Typing one character, of any width, and then pressing backspace leaves the
/// typed text as it was, as long as the character still fitted in the buffer.
pub proof fn law_type_then_erase(typed: Seq<char>, key: Event, erase: Event)
    requires
        key.event_type == EventType::KeyPress(Key::Other),
        key.name is Some,
        key.name->Some_0@.len() == 1,
        utf8_len(typed) + char_width(key.name->Some_0@[0]) <= BUFFER_LIMIT,
        erase.event_type == EventType::KeyPress(Key::Backspace),
    ensures
        typed_after(typed_after(typed, key), erase) == typed,
{
    let c = key.name->Some_0@[0];
    lemma_utf8_len_push(typed, c);
    assert(typed.push(c).drop_last() =~= typed);
}

/// For ASCII text and triggers, case is ignored: a trigger is completed
/// exactly when the lowercased text ends with the lowercased trigger, and in
/// particular whenever the text ends with the trigger as written.
pub proof fn law_ascii_triggers_match_without_case(typed: Seq<char>, trigger: Seq<char>)
    requires
        all_ascii(typed),
        all_ascii(trigger),
    ensures
        trigger_matches(typed, trigger) == ends_with(
            ascii_lowercase(typed),
            ascii_lowercase(trigger),
        ),
        ends_with(typed, trigger) ==> trigger_matches(typed, trigger),
{
    if ends_with(typed, trigger) {
        lemma_ascii_lowercase_keeps_suffix(typed, trigger);
    }
}

/// Space or enter always leaves the buffer empty.
pub proof fn law_completion_empties_buffer(typed: Seq<char>, event: Event)
    requires
        completes(event),
    ensures
        typed_after(typed, event) == Seq::<char>::empty(),
{
}

/// Whatever the events, the buffer keeps at most 100 bytes of UTF-8.
pub proof fn law_buffer_stays_bounded(typed: Seq<char>, event: Event)
    requires
        utf8_len(typed) <= BUFFER_LIMIT,
    ensures
        utf8_len(typed_after(typed, event)) <= BUFFER_LIMIT,
{
    assert(utf8_len(Seq::<char>::empty()) == 0);
    if let EventType::KeyPress(k) = event.event_type {
        match key_action(k) {
            KeyAction::Type => {
                if let Some(n) = event.name {
                    if n@.len() == 1 {
                        lemma_keep_last_bytes_fits(typed.push(n@[0]), BUFFER_LIMIT as nat);
                    }
                }
            },
            _ => {},
        }
    }
}

/// With no trigger completed, a space or enter reports nothing; otherwise it
/// reports a completed trigger no shorter than any other completed one.
pub proof fn law_longest_completed_trigger_wins(
    r: Option<(usize, String)>,
    matched: spec_fn(int) -> bool,
    triggers: Seq<Seq<char>>,
    contents: Seq<Seq<char>>,
    j: int,
)
    requires
        is_longest_match(r, matched, triggers, contents),
        0 <= j < triggers.len(),
        matched(j),
    ensures
        r is Some,
        erase_count(triggers[j]) <= r->Some_0.0,
{
}

/// A press of a modifier alone (shift, control, alt, AltGr, meta or caps
/// lock, left or right) leaves the typed text as it is and reports nothing.
pub proof fn law_modifiers_are_ignored(typed: Seq<char>, event: Event)
    requires
        event.event_type == EventType::KeyPress(Key::ShiftLeft) || event.event_type
            == EventType::KeyPress(Key::ShiftRight) || event.event_type == EventType::KeyPress(
            Key::ControlLeft,
        ) || event.event_type == EventType::KeyPress(Key::ControlRight) || event.event_type
            == EventType::KeyPress(Key::Alt) || event.event_type == EventType::KeyPress(Key::AltGr)
            || event.event_type == EventType::KeyPress(Key::MetaLeft) || event.event_type
            == EventType::KeyPress(Key::MetaRight) || event.event_type == EventType::KeyPress(
            Key::CapsLock,
        ),
    ensures
        typed_after(typed, event) == typed,
        !completes(event),
{
}

/// Tab, escape, the arrows, home, end, page up and page down empty the typed
/// text and report nothing.
pub proof fn law_navigation_keys_reset(typed: Seq<char>, event: Event)
    requires
        event.event_type == EventType::KeyPress(Key::Tab) || event.event_type
            == EventType::KeyPress(Key::Escape) || event.event_type == EventType::KeyPress(
            Key::UpArrow,
        ) || event.event_type == EventType::KeyPress(Key::DownArrow) || event.event_type
            == EventType::KeyPress(Key::LeftArrow) || event.event_type == EventType::KeyPress(
            Key::RightArrow,
        ) || event.event_type == EventType::KeyPress(Key::Home) || event.event_type
            == EventType::KeyPress(Key::End) || event.event_type == EventType::KeyPress(Key::PageUp)
            || event.event_type == EventType::KeyPress(Key::PageDown),
    ensures
        typed_after(typed, event) == Seq::<char>::empty(),
        !completes(event),
{
}

/// Space and enter complete a trigger and empty the typed text.
pub proof fn law_space_and_enter_complete(typed: Seq<char>, event: Event)
    requires
        event.event_type == EventType::KeyPress(Key::Space) || event.event_type
            == EventType::KeyPress(Key::Return),
    ensures
        completes(event),
        typed_after(typed, event) == Seq::<char>::empty(),
{
}

/// Backspace drops the last typed character, if any, and reports nothing.
pub proof fn law_backspace_drops_last(typed: Seq<char>, event: Event)
    requires
        event.event_type == EventType::KeyPress(Key::Backspace),
    ensures
        typed.len() > 0 ==> typed_after(typed, event) == typed.drop_last(),
        typed.len() == 0 ==> typed_after(typed, event) == typed,
        !completes(event),
{
}

/// A key release, or any event that is not a key press, changes nothing.
pub proof fn law_other_events_change_nothing(typed: Seq<char>, event: Event)
    requires
        event.event_type == EventType::Other,
    ensures
        typed_after(typed, event) == typed,
        !completes(event),
{
}

/// Any other key that types one character appends it; while the text still
/// fits in 100 bytes nothing is dropped.
pub proof fn law_typed_character_is_appended(typed: Seq<char>, event: Event)
    requires
        event.event_type == EventType::KeyPress(Key::Other),
        event.name is Some,
        event.name->Some_0@.len() == 1,
        utf8_len(typed) + char_width(event.name->Some_0@[0]) <= BUFFER_LIMIT,
    ensures
        typed_after(typed, event) == typed.push(event.name->Some_0@[0]),
        !completes(event),
{
    lemma_utf8_len_push(typed, event.name->Some_0@[0]);
}

} // verus!
