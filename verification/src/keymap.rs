use vstd::prelude::*;

verus! {

/// A key on the keyboard, as the picker sees it.
#[derive(Clone, Copy, Debug, PartialEq, Eq, Structural)]
pub enum KeyCode {
    Esc,
    Enter,
    Left,
    Right,
    Up,
    Down,
    Home,
    End,
    PageUp,
    PageDown,
    BackTab,
    Backspace,
    Delete,
    Insert,
    Tab,
    F(u8),
    Char(char),
}

/// Modifier keys held together with a key.
#[derive(Clone, Copy, Debug, PartialEq, Eq, Structural)]
pub struct Modifiers {
    pub shift: bool,
    pub control: bool,
    pub alt: bool,
    pub super_key: bool,
    pub hyper: bool,
    pub meta: bool,
}

impl Modifiers {
    /// No modifier held.
    pub open spec fn spec_none() -> Modifiers {
        Modifiers {
            shift: false,
            control: false,
            alt: false,
            super_key: false,
            hyper: false,
            meta: false,
        }
    }

    /// No modifier held.
    pub fn none() -> (r: Modifiers)
        ensures
            r == Modifiers::spec_none(),
    {
        Modifiers {
            shift: false,
            control: false,
            alt: false,
            super_key: false,
            hyper: false,
            meta: false,
        }
    }

    /// Only the control key held.
    pub open spec fn spec_ctrl() -> Modifiers {
        Modifiers {
            shift: false,
            control: true,
            alt: false,
            super_key: false,
            hyper: false,
            meta: false,
        }
    }

    /// Only the control key held.
    pub fn ctrl() -> (r: Modifiers)
        ensures
            r == Modifiers::spec_ctrl(),
    {
        Modifiers {
            shift: false,
            control: true,
            alt: false,
            super_key: false,
            hyper: false,
            meta: false,
        }
    }
}

/// A key with its modifiers: what one keymap entry binds.
#[derive(Clone, Copy, Debug, PartialEq, Eq, Structural)]
pub struct Key {
    pub code: KeyCode,
    pub modifiers: Modifiers,
}

impl Key {
    pub fn new(code: KeyCode, modifiers: Modifiers) -> (r: Key)
        ensures
            r == (Key { code, modifiers }),
    {
        Key { code, modifiers }
    }
}

/// Everything the picker can do in response to a key.
#[derive(Clone, Copy, Debug, PartialEq, Eq, Structural)]
pub enum PickerAction {
    Noop,
    Cancel,
    Confirm,
    Backspace,
    Delete,
    MoveUp,
    MoveDown,
    CursorLeft,
    CursorRight,
    DeleteWord,
    DeleteToLineStart,
    DeleteToLineEnd,
    MoveToLineStart,
    MoveToLineEnd,
}

/// The first action bound to `k` in an entry list, scanning left to right.
pub open spec fn binding_of(entries: Seq<(Key, PickerAction)>, k: Key) -> Option<PickerAction>
    decreases entries.len(),
{
    if entries.len() == 0 {
        None
    } else if entries[0].0 == k {
        Some(entries[0].1)
    } else {
        binding_of(entries.skip(1), k)
    }
}

/// The closed mapping from keys to picker actions. Keys not bound here fall
/// back to literal insertion for printable characters.
#[derive(Debug, Clone)]
pub struct Keymap {
    pub entries: Vec<(Key, PickerAction)>,
}

impl Keymap {
    /// What this keymap binds `k` to.
    pub open spec fn spec_get(&self, k: Key) -> Option<PickerAction> {
        binding_of(self.entries@, k)
    }

    pub fn new() -> (r: Keymap)
        ensures
            forall|k: Key| r.spec_get(k) is None,
    {
        let r = Keymap { entries: Vec::new() };
        r
    }

    /// Looks up the action bound to a key.
    pub fn get(&self, k: Key) -> (r: Option<PickerAction>)
        ensures
            r == self.spec_get(k),
    {
        let n = self.entries.len();
        let mut i: usize = 0;
        proof {
            assert(self.entries@.skip(0) =~= self.entries@);
        }
        while i < n
            invariant
                n == self.entries@.len(),
                i <= n,
                binding_of(self.entries@, k) == binding_of(self.entries@.skip(i as int), k),
            decreases n - i,
        {
            let ghost pre = self.entries@.skip(i as int);
            proof {
                assert(pre[0] == self.entries@[i as int]);
                assert(pre.skip(1) =~= self.entries@.skip(i as int + 1));
            }
            if self.entries[i].0 == k {
                return Some(self.entries[i].1);
            }
            i = i + 1;
        }
        None
    }

    /// Binds `k` to `action`, overriding an earlier binding of the same key.
    pub fn set(&mut self, k: Key, action: PickerAction)
        ensures
            final(self).spec_get(k) == Some(action),
            forall|k2: Key| k2 != k ==> final(self).spec_get(k2) == old(self).spec_get(k2),
    {
        let n = self.entries.len();
        let mut i: usize = 0;
        let mut found = false;
        while i < n && !found
            invariant
                n == self.entries@.len(),
                i <= n,
                forall|j: int| 0 <= j < i ==> (#[trigger] self.entries@[j]).0 != k,
                found ==> i < n && self.entries@[i as int].0 == k,
            decreases n - i + (if found {
                0int
            } else {
                1int
            }),
        {
            if self.entries[i].0 == k {
                found = true;
            } else {
                i = i + 1;
            }
        }
        let ghost pre = self.entries@;
        if found {
            self.entries.remove(i);
            self.entries.insert(i, (k, action));
            proof {
                assert(self.entries@ =~= pre.update(i as int, (k, action)));
                lemma_binding_update(pre, i as int, k, action);
            }
        } else {
            self.entries.push((k, action));
            proof {
                lemma_binding_push(pre, k, action);
            }
        }
    }
}

/// Overriding position `i`, whose key is `k` and which no earlier entry
/// shadows, rebinds `k` and nothing else.
proof fn lemma_binding_update(entries: Seq<(Key, PickerAction)>, i: int, k: Key, a: PickerAction)
    requires
        0 <= i < entries.len(),
        entries[i].0 == k,
        forall|j: int| 0 <= j < i ==> (#[trigger] entries[j]).0 != k,
    ensures
        binding_of(entries.update(i, (k, a)), k) == Some(a),
        forall|k2: Key|
            k2 != k ==> binding_of(entries.update(i, (k, a)), k2) == binding_of(entries, k2),
    decreases entries.len(),
{
    let upd = entries.update(i, (k, a));
    if i == 0 {
        assert(upd[0] == (k, a));
        assert(binding_of(upd, k) == Some(a));
        assert forall|k2: Key| k2 != k implies binding_of(upd, k2) == binding_of(entries, k2) by {
            assert(upd.skip(1) =~= entries.skip(1));
            assert(binding_of(upd, k2) == binding_of(upd.skip(1), k2));
            assert(binding_of(entries, k2) == binding_of(entries.skip(1), k2));
        }
    } else {
        assert(upd[0] == entries[0]);
        assert(entries[0].0 != k);
        assert(upd.skip(1) =~= entries.skip(1).update(i - 1, (k, a)));
        assert(entries.skip(1)[i - 1] == entries[i]);
        assert(forall|j: int|
            0 <= j < i - 1 ==> (#[trigger] entries.skip(1)[j]).0 != k);
        lemma_binding_update(entries.skip(1), i - 1, k, a);
        assert(binding_of(upd, k) == binding_of(upd.skip(1), k));
        assert(binding_of(upd, k) == Some(a));
        assert forall|k2: Key| k2 != k implies binding_of(upd, k2) == binding_of(entries, k2) by {
            if entries[0].0 == k2 {
                assert(binding_of(upd, k2) == Some(upd[0].1));
                assert(binding_of(entries, k2) == Some(entries[0].1));
            } else {
                assert(binding_of(upd, k2) == binding_of(upd.skip(1), k2));
                assert(binding_of(entries, k2) == binding_of(entries.skip(1), k2));
            }
        }
    }
}

/// Appending an entry for a key that no earlier entry binds, binds that key
/// and nothing else.
proof fn lemma_binding_push(entries: Seq<(Key, PickerAction)>, k: Key, a: PickerAction)
    requires
        forall|j: int| 0 <= j < entries.len() ==> (#[trigger] entries[j]).0 != k,
    ensures
        binding_of(entries.push((k, a)), k) == Some(a),
        forall|k2: Key|
            k2 != k ==> binding_of(entries.push((k, a)), k2) == binding_of(entries, k2),
    decreases entries.len(),
{
    let p = entries.push((k, a));
    if entries.len() == 0 {
        assert(p[0] == (k, a));
        assert(binding_of(p, k) == Some(a));
        assert forall|k2: Key| k2 != k implies binding_of(p, k2) == binding_of(entries, k2) by {
            assert(p.skip(1) =~= Seq::<(Key, PickerAction)>::empty());
            assert(binding_of(p, k2) == binding_of(p.skip(1), k2));
        }
    } else {
        assert(p[0] == entries[0]);
        assert(entries[0].0 != k);
        assert(p.skip(1) =~= entries.skip(1).push((k, a)));
        assert(forall|j: int|
            0 <= j < entries.skip(1).len() ==> (#[trigger] entries.skip(1)[j]).0 != k);
        lemma_binding_push(entries.skip(1), k, a);
        assert(binding_of(p, k) == binding_of(p.skip(1), k));
        assert(binding_of(p, k) == Some(a));
        assert forall|k2: Key| k2 != k implies binding_of(p, k2) == binding_of(entries, k2) by {
            if entries[0].0 == k2 {
                assert(binding_of(p, k2) == Some(p[0].1));
                assert(binding_of(entries, k2) == Some(entries[0].1));
            } else {
                assert(binding_of(p, k2) == binding_of(p.skip(1), k2));
                assert(binding_of(entries, k2) == binding_of(entries.skip(1), k2));
            }
        }
    }
}

/// The default bindings, as a specification-level association list.
pub open spec fn default_entries() -> Seq<(Key, PickerAction)> {
    seq![
        (Key { code: KeyCode::Char('c'), modifiers: Modifiers::spec_ctrl() }, PickerAction::Cancel),
        (Key { code: KeyCode::Esc, modifiers: Modifiers::spec_none() }, PickerAction::Cancel),
        (Key { code: KeyCode::Enter, modifiers: Modifiers::spec_none() }, PickerAction::Confirm),
        (Key { code: KeyCode::Delete, modifiers: Modifiers::spec_none() }, PickerAction::Delete),
        (Key { code: KeyCode::Char('d'), modifiers: Modifiers::spec_ctrl() }, PickerAction::Delete),
        (
            Key { code: KeyCode::Backspace, modifiers: Modifiers::spec_none() },
            PickerAction::Backspace,
        ),
        (Key { code: KeyCode::Down, modifiers: Modifiers::spec_none() }, PickerAction::MoveDown),
        (
            Key { code: KeyCode::Char('j'), modifiers: Modifiers::spec_ctrl() },
            PickerAction::MoveDown,
        ),
        (
            Key { code: KeyCode::Char('n'), modifiers: Modifiers::spec_ctrl() },
            PickerAction::MoveDown,
        ),
        (Key { code: KeyCode::Up, modifiers: Modifiers::spec_none() }, PickerAction::MoveUp),
        (Key { code: KeyCode::Char('k'), modifiers: Modifiers::spec_ctrl() }, PickerAction::MoveUp),
        (Key { code: KeyCode::Char('p'), modifiers: Modifiers::spec_ctrl() }, PickerAction::MoveUp),
        (Key { code: KeyCode::Left, modifiers: Modifiers::spec_none() }, PickerAction::CursorLeft),
        (
            Key { code: KeyCode::Right, modifiers: Modifiers::spec_none() },
            PickerAction::CursorRight,
        ),
        (
            Key { code: KeyCode::Char('w'), modifiers: Modifiers::spec_ctrl() },
            PickerAction::DeleteWord,
        ),
        (
            Key { code: KeyCode::Char('u'), modifiers: Modifiers::spec_ctrl() },
            PickerAction::DeleteToLineStart,
        ),
        (
            Key { code: KeyCode::Char('a'), modifiers: Modifiers::spec_ctrl() },
            PickerAction::MoveToLineStart,
        ),
        (
            Key { code: KeyCode::Char('e'), modifiers: Modifiers::spec_ctrl() },
            PickerAction::MoveToLineEnd,
        ),
    ]
}

/// The baseline keymap: cancel, confirm, edit and movement keys.
pub fn default_keymap() -> (r: Keymap)
    ensures
        r.entries@ == default_entries(),
{
    let mut entries: Vec<(Key, PickerAction)> = Vec::new();
    entries.push((Key { code: KeyCode::Char('c'), modifiers: Modifiers::ctrl() }, PickerAction::Cancel));
    entries.push((Key { code: KeyCode::Esc, modifiers: Modifiers::none() }, PickerAction::Cancel));
    entries.push((Key { code: KeyCode::Enter, modifiers: Modifiers::none() }, PickerAction::Confirm));
    entries.push((Key { code: KeyCode::Delete, modifiers: Modifiers::none() }, PickerAction::Delete));
    entries.push((Key { code: KeyCode::Char('d'), modifiers: Modifiers::ctrl() }, PickerAction::Delete));
    entries.push((Key { code: KeyCode::Backspace, modifiers: Modifiers::none() }, PickerAction::Backspace));
    entries.push((Key { code: KeyCode::Down, modifiers: Modifiers::none() }, PickerAction::MoveDown));
    entries.push((Key { code: KeyCode::Char('j'), modifiers: Modifiers::ctrl() }, PickerAction::MoveDown));
    entries.push((Key { code: KeyCode::Char('n'), modifiers: Modifiers::ctrl() }, PickerAction::MoveDown));
    entries.push((Key { code: KeyCode::Up, modifiers: Modifiers::none() }, PickerAction::MoveUp));
    entries.push((Key { code: KeyCode::Char('k'), modifiers: Modifiers::ctrl() }, PickerAction::MoveUp));
    entries.push((Key { code: KeyCode::Char('p'), modifiers: Modifiers::ctrl() }, PickerAction::MoveUp));
    entries.push((Key { code: KeyCode::Left, modifiers: Modifiers::none() }, PickerAction::CursorLeft));
    entries.push((Key { code: KeyCode::Right, modifiers: Modifiers::none() }, PickerAction::CursorRight));
    entries.push((Key { code: KeyCode::Char('w'), modifiers: Modifiers::ctrl() }, PickerAction::DeleteWord));
    entries.push((Key { code: KeyCode::Char('u'), modifiers: Modifiers::ctrl() }, PickerAction::DeleteToLineStart));
    entries.push((Key { code: KeyCode::Char('a'), modifiers: Modifiers::ctrl() }, PickerAction::MoveToLineStart));
    entries.push((Key { code: KeyCode::Char('e'), modifiers: Modifiers::ctrl() }, PickerAction::MoveToLineEnd));
    let r = Keymap { entries };
    proof {
        assert(r.entries@ =~= default_entries());
    }
    r
}

/// The default keymap with the given bindings layered on top: a binding in
/// `overrides` for a key replaces the default one.
pub fn with_defaults(overrides: &Keymap) -> (r: Keymap)
    ensures
        forall|k: Key|
            #[trigger] r.spec_get(k) == if overrides.spec_get(k) is Some {
                overrides.spec_get(k)
            } else {
                binding_of(default_entries(), k)
            },
{
    let mut r = default_keymap();
    let n = overrides.entries.len();
    let mut i: usize = n;
    proof {
        assert(overrides.entries@.skip(n as int) =~= Seq::<(Key, PickerAction)>::empty());
    }
    while i > 0
        invariant
            n == overrides.entries@.len(),
            i <= n,
            forall|k: Key|
                #[trigger] r.spec_get(k) == if binding_of(
                    overrides.entries@.skip(i as int),
                    k,
                ) is Some {
                    binding_of(overrides.entries@.skip(i as int), k)
                } else {
                    binding_of(default_entries(), k)
                },
        decreases i,
    {
        i = i - 1;
        let (k, a) = overrides.entries[i];
        r.set(k, a);
        proof {
            let es = overrides.entries@;
            assert(es.skip(i as int)[0] == es[i as int]);
            assert(es.skip(i as int).skip(1) =~= es.skip(i as int + 1));
            assert forall|k2: Key|
                #[trigger] r.spec_get(k2) == (if binding_of(es.skip(i as int), k2) is Some {
                    binding_of(es.skip(i as int), k2)
                } else {
                    binding_of(default_entries(), k2)
                }) by {
                if k2 == k {
                    assert(binding_of(es.skip(i as int), k2) == Some(a));
                } else {
                    assert(binding_of(es.skip(i as int), k2) == binding_of(
                        es.skip(i as int + 1),
                        k2,
                    ));
                }
            }
        }
    }
    proof {
        assert(overrides.entries@.skip(0) =~= overrides.entries@);
    }
    r
}

} // verus!
