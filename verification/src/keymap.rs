//! The key-sequence resolution engine.
//!
//! A [`KeyMap`] owns a set of bindings, each an ordered sequence of one or
//! more keys paired with the command it denotes, and matches a stream of key
//! events against them one key at a time.

use vstd::prelude::*;

use crate::command::Command;
use crate::keyboard::Key;

verus! {

/// The outcome of feeding one key to a [`KeyMap`].
#[derive(Clone, Copy, Debug, PartialEq, Eq, Structural)]
pub enum KeyMapState {
    /// The keys typed so far are exactly a bound sequence.
    Match(Command),
    /// The keys typed so far begin a longer bound sequence.
    Partial,
    /// No bound sequence begins with the keys typed so far.
    NoMatch,
}

/// `short` is the beginning of `long`, and `long` goes on after it.
pub open spec fn is_strict_prefix(short: Seq<Key>, long: Seq<Key>) -> bool {
    short.len() < long.len() && long.subrange(0, short.len() as int) == short
}

/// The mathematical content of a [`KeyMap`].
#[verifier::ext_equal]
pub struct KeyMapView {
    /// The command bound to each registered key sequence.
    pub bindings: Map<Seq<Key>, Command>,
    /// The keys consumed so far by a sequence that is still in progress.
    pub pending: Seq<Key>,
}

/// Some sequence bound in `bindings` begins with `typed` and is longer than it.
pub open spec fn continues(bindings: Map<Seq<Key>, Command>, typed: Seq<Key>) -> bool {
    exists|bound: Seq<Key>| #[trigger]
        bindings.dom().contains(bound) && is_strict_prefix(typed, bound)
}

/// What the sequence `typed` amounts to under `bindings`: an exact match wins
/// over a longer binding that `typed` only begins.
pub open spec fn resolve(bindings: Map<Seq<Key>, Command>, typed: Seq<Key>) -> KeyMapState {
    if bindings.dom().contains(typed) {
        KeyMapState::Match(bindings[typed])
    } else if continues(bindings, typed) {
        KeyMapState::Partial
    } else {
        KeyMapState::NoMatch
    }
}

impl KeyMapView {
    /// No bindings and no progress.
    pub open spec fn empty() -> KeyMapView {
        KeyMapView { bindings: Map::empty(), pending: Seq::empty() }
    }

    /// Every bound sequence holds at least one key, and the keys in progress,
    /// if there are any, begin a longer bound sequence.
    pub open spec fn wf(self) -> bool {
        &&& forall|bound: Seq<Key>| #[trigger]
            self.bindings.dom().contains(bound) ==> bound.len() >= 1
        &&& self.pending.len() == 0 || continues(self.bindings, self.pending)
    }

    /// Registers `keys` for `command`, replacing what `keys` was bound to.
    pub open spec fn bind(self, keys: Seq<Key>, command: Command) -> KeyMapView {
        KeyMapView { bindings: self.bindings.insert(keys, command), pending: self.pending }
    }

    /// Feeds one key: the keys in progress followed by `key` are resolved, and
    /// progress is kept only while more keys are awaited.
    pub open spec fn check(self, key: Key) -> (KeyMapView, KeyMapState) {
        let typed = self.pending.push(key);
        let state = resolve(self.bindings, typed);
        let pending = if state is Partial {
            typed
        } else {
            Seq::empty()
        };
        (KeyMapView { bindings: self.bindings, pending }, state)
    }
}

/// One registered key sequence and the command it denotes.
struct Binding {
    keys: Vec<Key>,
    command: Command,
}

/// No two entries hold the same key sequence.
spec fn distinct(entries: Seq<Binding>) -> bool {
    forall|i: int, j: int|
        0 <= i < entries.len() && 0 <= j < entries.len() && i != j
            ==> #[trigger] entries[i].keys@ != #[trigger] entries[j].keys@
}

/// Some entry holds the key sequence `keys`.
spec fn holds(entries: Seq<Binding>, keys: Seq<Key>) -> bool {
    exists|i: int| 0 <= i < entries.len() && #[trigger] entries[i].keys@ == keys
}

/// The map from key sequence to command that a list of entries stands for.
spec fn table(entries: Seq<Binding>) -> Map<Seq<Key>, Command> {
    Map::new(
        |keys: Seq<Key>| holds(entries, keys),
        |keys: Seq<Key>|
            entries[choose|i: int| 0 <= i < entries.len() && #[trigger] entries[i].keys@ == keys].command,
    )
}

proof fn lemma_table_entry(entries: Seq<Binding>, i: int)
    requires
        distinct(entries),
        0 <= i < entries.len(),
    ensures
        table(entries).dom().contains(entries[i].keys@),
        table(entries)[entries[i].keys@] == entries[i].command,
{
    let keys = entries[i].keys@;
    let j = choose|j: int| 0 <= j < entries.len() && #[trigger] entries[j].keys@ == keys;
    assert(j == i);
}

proof fn lemma_table_push(entries: Seq<Binding>, entry: Binding)
    requires
        distinct(entries),
        !holds(entries, entry.keys@),
    ensures
        distinct(entries.push(entry)),
        table(entries.push(entry)) == table(entries).insert(entry.keys@, entry.command),
{
    let grown = entries.push(entry);
    assert(distinct(grown)) by {
        assert forall|i: int, j: int|
            0 <= i < grown.len() && 0 <= j < grown.len() && i != j
            implies #[trigger] grown[i].keys@ != #[trigger] grown[j].keys@ by {
            if i < entries.len() && j < entries.len() {
                assert(entries[i].keys@ != entries[j].keys@);
            } else if i < entries.len() {
                assert(entries[i].keys@ != entry.keys@);
            } else {
                assert(entries[j].keys@ != entry.keys@);
            }
        }
    }
    let last = entries.len() as int;
    assert forall|keys: Seq<Key>| #[trigger]
        table(grown).dom().contains(keys) <==> table(entries).insert(
            entry.keys@,
            entry.command,
        ).dom().contains(keys) by {
        if holds(grown, keys) {
            let i = choose|i: int| 0 <= i < grown.len() && #[trigger] grown[i].keys@ == keys;
            if i < last {
                assert(entries[i].keys@ == keys);
            }
        }
        if holds(entries, keys) {
            let i = choose|i: int| 0 <= i < entries.len() && #[trigger] entries[i].keys@ == keys;
            assert(grown[i].keys@ == keys);
        }
        if keys == entry.keys@ {
            assert(grown[last].keys@ == keys);
        }
    }
    assert forall|keys: Seq<Key>| #[trigger] table(grown).dom().contains(keys) implies table(
        grown,
    )[keys] == table(entries).insert(entry.keys@, entry.command)[keys] by {
        let i = choose|i: int| 0 <= i < grown.len() && #[trigger] grown[i].keys@ == keys;
        lemma_table_entry(grown, i);
        if i < last {
            assert(entries[i].keys@ == keys);
            lemma_table_entry(entries, i);
        }
    }
    assert(table(grown) =~= table(entries).insert(entry.keys@, entry.command));
}

proof fn lemma_table_update(entries: Seq<Binding>, at: int, entry: Binding)
    requires
        distinct(entries),
        0 <= at < entries.len(),
        entries[at].keys@ == entry.keys@,
    ensures
        distinct(entries.update(at, entry)),
        table(entries.update(at, entry)) == table(entries).insert(entry.keys@, entry.command),
{
    let changed = entries.update(at, entry);
    assert(distinct(changed)) by {
        assert forall|i: int, j: int|
            0 <= i < changed.len() && 0 <= j < changed.len() && i != j
            implies #[trigger] changed[i].keys@ != #[trigger] changed[j].keys@ by {
            assert(changed[i].keys@ == entries[i].keys@);
            assert(changed[j].keys@ == entries[j].keys@);
        }
    }
    assert forall|keys: Seq<Key>| #[trigger]
        table(changed).dom().contains(keys) <==> table(entries).insert(
            entry.keys@,
            entry.command,
        ).dom().contains(keys) by {
        if holds(changed, keys) {
            let i = choose|i: int| 0 <= i < changed.len() && #[trigger] changed[i].keys@ == keys;
            assert(entries[i].keys@ == keys);
        }
        if holds(entries, keys) {
            let i = choose|i: int| 0 <= i < entries.len() && #[trigger] entries[i].keys@ == keys;
            assert(changed[i].keys@ == keys);
        }
        if keys == entry.keys@ {
            assert(changed[at].keys@ == keys);
        }
    }
    assert forall|keys: Seq<Key>| #[trigger] table(changed).dom().contains(keys) implies table(
        changed,
    )[keys] == table(entries).insert(entry.keys@, entry.command)[keys] by {
        let i = choose|i: int| 0 <= i < changed.len() && #[trigger] changed[i].keys@ == keys;
        lemma_table_entry(changed, i);
        assert(entries[i].keys@ == keys);
        lemma_table_entry(entries, i);
    }
    assert(table(changed) =~= table(entries).insert(entry.keys@, entry.command));
}

/// How a bound sequence stands to the keys typed so far.
enum Fit {
    /// The bound sequence is exactly what was typed.
    Exact,
    /// The bound sequence begins with what was typed and goes on.
    Longer,
    /// The bound sequence does not begin with what was typed.
    Apart,
}

/// Compares `bound` with the sequence made of `pending` followed by `key`.
fn fit(bound: &Vec<Key>, pending: &Vec<Key>, key: Key) -> (f: Fit)
    ensures
        f is Exact <==> bound@ == pending@.push(key),
        f is Longer <==> is_strict_prefix(pending@.push(key), bound@),
{
    let ghost typed = pending@.push(key);
    let n = pending.len();
    if bound.len() <= n {
        return Fit::Apart;
    }
    let mut i: usize = 0;
    while i < n
        invariant
            n == pending.len(),
            n < bound.len(),
            i <= n,
            typed == pending@.push(key),
            forall|j: int| 0 <= j < i ==> bound@[j] == pending@[j],
        decreases n - i,
    {
        if bound[i] != pending[i] {
            assert(bound@[i as int] != typed[i as int]);
            assert(bound@.subrange(0, typed.len() as int)[i as int] == bound@[i as int]);
            return Fit::Apart;
        }
        i += 1;
    }
    if bound[n] != key {
        assert(bound@[n as int] != typed[n as int]);
        assert(bound@.subrange(0, typed.len() as int)[n as int] == bound@[n as int]);
        return Fit::Apart;
    }
    assert(bound@.subrange(0, typed.len() as int) =~= typed);
    if bound.len() == n + 1 {
        assert(bound@ =~= typed);
        Fit::Exact
    } else {
        Fit::Longer
    }
}

/// Whether `bound` and `keys` are the same sequence.
fn same_keys(bound: &Vec<Key>, keys: &[Key]) -> (same: bool)
    ensures
        same == (bound@ == keys@),
{
    if bound.len() != keys.len() {
        return false;
    }
    let mut i: usize = 0;
    while i < bound.len()
        invariant
            bound.len() == keys.len(),
            i <= bound.len(),
            forall|j: int| 0 <= j < i ==> bound@[j] == keys@[j],
        decreases bound.len() - i,
    {
        if bound[i] != keys[i] {
            return false;
        }
        i += 1;
    }
    assert(bound@ =~= keys@);
    true
}

/// An owned copy of `keys`.
fn copy_keys(keys: &[Key]) -> (copy: Vec<Key>)
    ensures
        copy@ == keys@,
{
    let mut copy: Vec<Key> = Vec::new();
    let mut i: usize = 0;
    while i < keys.len()
        invariant
            i <= keys.len(),
            copy@ == keys@.subrange(0, i as int),
        decreases keys.len() - i,
    {
        copy.push(keys[i]);
        assert(copy@ =~= keys@.subrange(0, i + 1));
        i += 1;
    }
    assert(copy@ =~= keys@);
    copy
}

/// Puts `keys -> command` into `entries`, in place of the entry for `keys`
/// where there is one.
fn put(entries: &mut Vec<Binding>, keys: &[Key], command: Command)
    requires
        distinct(old(entries)@),
    ensures
        distinct(final(entries)@),
        table(final(entries)@) == table(old(entries)@).insert(keys@, command),
{
    let entry = Binding { keys: copy_keys(keys), command };
    let mut i: usize = 0;
    while i < entries.len()
        invariant
            i <= entries.len(),
            entries@ == old(entries)@,
            entry.keys@ == keys@,
            entry.command == command,
            distinct(entries@),
            forall|j: int| 0 <= j < i ==> (#[trigger] entries@[j]).keys@ != keys@,
        decreases entries.len() - i,
    {
        if same_keys(&entries[i].keys, keys) {
            proof {
                lemma_table_update(entries@, i as int, entry);
            }
            entries.set(i, entry);
            return;
        }
        i += 1;
    }
    proof {
        lemma_table_push(entries@, entry);
    }
    entries.push(entry);
}

/// Resolves the sequence made of `pending` followed by `key` against `entries`.
fn lookup(entries: &Vec<Binding>, pending: &Vec<Key>, key: Key) -> (state: KeyMapState)
    requires
        distinct(entries@),
    ensures
        state == resolve(table(entries@), pending@.push(key)),
{
    let ghost typed = pending@.push(key);
    let mut awaited = false;
    let mut i: usize = 0;
    while i < entries.len()
        invariant
            i <= entries.len(),
            distinct(entries@),
            typed == pending@.push(key),
            forall|j: int| 0 <= j < i ==> (#[trigger] entries@[j]).keys@ != typed,
            awaited <==> exists|j: int|
                0 <= j < i && is_strict_prefix(typed, (#[trigger] entries@[j]).keys@),
        decreases entries.len() - i,
    {
        match fit(&entries[i].keys, pending, key) {
            Fit::Exact => {
                proof {
                    lemma_table_entry(entries@, i as int);
                }
                return KeyMapState::Match(entries[i].command);
            },
            Fit::Longer => {
                awaited = true;
            },
            Fit::Apart => {},
        }
        i += 1;
    }
    proof {
        if holds(entries@, typed) {
            let j = choose|j: int| 0 <= j < entries@.len() && #[trigger] entries@[j].keys@ == typed;
            assert(entries@[j].keys@ != typed);
        }
        if awaited {
            let j = choose|j: int|
                0 <= j < i && is_strict_prefix(typed, (#[trigger] entries@[j]).keys@);
            lemma_table_entry(entries@, j);
        }
        if continues(table(entries@), typed) {
            let bound = choose|bound: Seq<Key>| #[trigger]
                table(entries@).dom().contains(bound) && is_strict_prefix(typed, bound);
            let j = choose|j: int| 0 <= j < entries@.len() && #[trigger] entries@[j].keys@ == bound;
            assert(is_strict_prefix(typed, entries@[j].keys@));
        }
    }
    if awaited {
        KeyMapState::Partial
    } else {
        KeyMapState::NoMatch
    }
}

/// The sequence resolution engine: a set of bindings and the keys consumed so
/// far by a sequence in progress.
pub struct KeyMap {
    bindings: Vec<Binding>,
    progress: Vec<Key>,
}

impl View for KeyMap {
    type V = KeyMapView;

    closed spec fn view(&self) -> KeyMapView {
        KeyMapView { bindings: table(self.bindings@), pending: self.progress@ }
    }
}

impl KeyMap {
    #[verifier::type_invariant]
    spec fn inv(&self) -> bool {
        &&& distinct(self.bindings@)
        &&& self@.wf()
    }

    /// A key map with no bindings and no sequence in progress.
    pub fn new() -> (keymap: KeyMap)
        ensures
            keymap@ == KeyMapView::empty(),
            keymap@.wf(),
    {
        let bindings: Vec<Binding> = Vec::new();
        assert(table(bindings@) =~= Map::empty());
        KeyMap { bindings, progress: Vec::new() }
    }

    /// Registers a one-key binding.
    pub fn bind_key(&mut self, key: Key, command: Command)
        ensures
            final(self)@ == old(self)@.bind(seq![key], command),
            final(self)@.wf(),
    {
        let keys = [key];
        assert(keys@ =~= seq![key]);
        self.bind_keys(&keys, command);
    }

    /// Registers the sequence `keys` for `command`. A later registration of
    /// the same sequence replaces the earlier one.
    pub fn bind_keys(&mut self, keys: &[Key], command: Command)
        requires
            keys@.len() >= 1,
        ensures
            final(self)@ == old(self)@.bind(keys@, command),
            final(self)@.wf(),
    {
        let mut taken = KeyMap::new();
        core::mem::swap(self, &mut taken);
        proof {
            use_type_invariant(&taken);
        }
        let KeyMap { mut bindings, progress } = taken;
        let ghost before = table(bindings@);
        put(&mut bindings, keys, command);
        proof {
            if progress@.len() > 0 {
                let bound = choose|bound: Seq<Key>| #[trigger]
                    before.dom().contains(bound) && is_strict_prefix(progress@, bound);
                assert(table(bindings@).dom().contains(bound));
            }
        }
        *self = KeyMap { bindings, progress };
    }

    /// Feeds one key event into the matching process.
    pub fn check_key(&mut self, key: Key) -> (state: KeyMapState)
        ensures
            (final(self)@, state) == old(self)@.check(key),
            final(self)@.wf(),
    {
        let mut taken = KeyMap::new();
        core::mem::swap(self, &mut taken);
        proof {
            use_type_invariant(&taken);
            assert(taken@.bindings == table(taken.bindings@));
        }
        let KeyMap { bindings, mut progress } = taken;
        let state = lookup(&bindings, &progress, key);
        match state {
            KeyMapState::Partial => {
                progress.push(key);
            },
            _ => {
                progress.clear();
            },
        }
        *self = KeyMap { bindings, progress };
        state
    }
}

/// A key bound on its own resolves at once. Whatever else is registered, a key
/// map with no sequence in progress that binds the one-key sequence `key` to
/// `command` answers `key` with `Match(command)` and has no progress after.
pub proof fn lemma_bound_key_matches(view: KeyMapView, key: Key, command: Command)
    requires
        view.pending.len() == 0,
        view.bindings.dom().contains(seq![key]),
        view.bindings[seq![key]] == command,
    ensures
        view.check(key) == (
            KeyMapView { bindings: view.bindings, pending: Seq::empty() },
            KeyMapState::Match(command),
        ),
{
    assert(view.pending.push(key) =~= seq![key]);
}

/// Binding a key and then typing it: in a key map with no sequence in
/// progress, `bind_key(key, command)` followed by `check_key(key)` yields
/// `Match(command)` and leaves the key map as the binding made it.
pub proof fn lemma_bind_key_then_check(view: KeyMapView, key: Key, command: Command)
    requires
        view.pending.len() == 0,
    ensures
        view.bind(seq![key], command).check(key) == (
            view.bind(seq![key], command),
            KeyMapState::Match(command),
        ),
{
    let bound = view.bind(seq![key], command);
    lemma_bound_key_matches(bound, key, command);
    assert(bound.pending =~= Seq::empty());
}

/// A two-key chord is matched across two events. Where `[first, second]` is
/// bound to `command` and `first` is not bound by itself, `first` is answered
/// with `Partial` and kept as progress, and `second` then completes the chord
/// with `Match(command)` and clears the progress.
pub proof fn lemma_chord_matches(view: KeyMapView, first: Key, second: Key, command: Command)
    requires
        view.pending.len() == 0,
        view.bindings.dom().contains(seq![first, second]),
        view.bindings[seq![first, second]] == command,
        !view.bindings.dom().contains(seq![first]),
    ensures
        view.check(first) == (
            KeyMapView { bindings: view.bindings, pending: seq![first] },
            KeyMapState::Partial,
        ),
        view.check(first).0.check(second) == (
            KeyMapView { bindings: view.bindings, pending: Seq::empty() },
            KeyMapState::Match(command),
        ),
{
    let typed = view.pending.push(first);
    assert(typed =~= seq![first]);
    assert(is_strict_prefix(typed, seq![first, second])) by {
        assert(seq![first, second].subrange(0, 1) =~= typed);
    }
    assert(typed.push(second) =~= seq![first, second]);
}

/// A chord that is not completed is dropped. After `first` has begun the
/// chord `[first, second]`, a key `other` that neither completes nor continues
/// any bound sequence is answered with `NoMatch` and the progress is cleared,
/// so that `first` typed again begins the chord anew.
pub proof fn lemma_chord_abandoned(view: KeyMapView, first: Key, second: Key, other: Key)
    requires
        view.pending.len() == 0,
        view.bindings.dom().contains(seq![first, second]),
        !view.bindings.dom().contains(seq![first]),
        !view.bindings.dom().contains(seq![first, other]),
        !continues(view.bindings, seq![first, other]),
    ensures
        view.check(first).0.check(other) == (
            KeyMapView { bindings: view.bindings, pending: Seq::empty() },
            KeyMapState::NoMatch,
        ),
        view.check(first).0.check(other).0.check(first) == (
            KeyMapView { bindings: view.bindings, pending: seq![first] },
            KeyMapState::Partial,
        ),
{
    lemma_chord_matches(view, first, second, view.bindings[seq![first, second]]);
    assert(seq![first].push(other) =~= seq![first, other]);
    let cleared = KeyMapView { bindings: view.bindings, pending: Seq::empty() };
    lemma_chord_matches(cleared, first, second, view.bindings[seq![first, second]]);
}

} // verus!
