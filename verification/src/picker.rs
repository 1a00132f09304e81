use vstd::prelude::*;

use crate::configs::PickerColorConfig;
use crate::keymap::{
    binding_of, default_entries, default_keymap, with_defaults, Key, KeyCode, Keymap, PickerAction,
};
use crate::strutil::{dec_digits, from_chars, push_char, str_eq, u32_to_string};

verus! {

// ---------------------------------------------------------------------------
// The fuzzy matcher, behind trusted wrappers
// ---------------------------------------------------------------------------

#[verifier::external_type_specification]
#[verifier::external_body]
#[verifier::reject_recursive_types(T)]
pub struct ExNucleo<T: Sync + Send + 'static>(nucleo::Nucleo<T>);

/// The labels injected into the matcher, in injection order.
pub uninterp spec fn matcher_items(m: nucleo::Nucleo<String>) -> Seq<Seq<char>>;

/// The filter text last handed to the matcher.
pub uninterp spec fn matcher_pattern(m: nucleo::Nucleo<String>) -> Seq<char>;

/// The matched labels of the matcher's current snapshot, in rank order.
pub uninterp spec fn matched_of(m: nucleo::Nucleo<String>) -> Seq<Seq<char>>;

/// The total item count of the matcher's current snapshot.
pub uninterp spec fn snapshot_total(m: nucleo::Nucleo<String>) -> int;

/// The is-append hint handed to the matcher's most recent pattern reparse.
pub uninterp spec fn matcher_append_hint(m: nucleo::Nucleo<String>) -> bool;

/// The matcher's redraw hook. The surrounding loop re-renders every tick
/// anyway, so nothing needs to happen here.
pub fn request_redraw() {
}

/// Relies on `nucleo::Nucleo::new`: a fresh matcher worker with one match
/// column holds no items, an empty pattern and an empty snapshot.
#[verifier::external_body]
fn new_matcher() -> (m: nucleo::Nucleo<String>)
    ensures
        matcher_items(m) == Seq::<Seq<char>>::empty(),
        matcher_pattern(m) == Seq::<char>::empty(),
        matched_of(m) == Seq::<Seq<char>>::empty(),
        snapshot_total(m) == 0,
{
    nucleo::Nucleo::new(nucleo::Config::DEFAULT, std::sync::Arc::new(request_redraw), None, 1)
}

/// Relies on `nucleo::Injector::push`: appends one item; the snapshot and
/// pattern stay as they are until the next tick.
#[verifier::external_body]
fn push_item(m: &mut nucleo::Nucleo<String>, item: &String)
    ensures
        matcher_items(*final(m)) == matcher_items(*old(m)).push(item@),
        matcher_pattern(*final(m)) == matcher_pattern(*old(m)),
        matcher_append_hint(*final(m)) == matcher_append_hint(*old(m)),
        matched_of(*final(m)) == matched_of(*old(m)),
        snapshot_total(*final(m)) == snapshot_total(*old(m)),
{
    m.injector().push(item.clone(), |s, dst| dst[0] = s.as_str().into());
}

/// Relies on `nucleo::pattern::MultiPattern::reparse`: replaces the filter
/// text of the single match column, with smart case matching (insensitive
/// unless the text holds an uppercase letter) and smart Unicode
/// normalization, both fixed below; the snapshot is untouched until the
/// next tick.
#[verifier::external_body]
fn reparse_pattern(m: &mut nucleo::Nucleo<String>, text: &String, append: bool)
    ensures
        matcher_items(*final(m)) == matcher_items(*old(m)),
        matcher_pattern(*final(m)) == text@,
        matcher_append_hint(*final(m)) == append,
        matched_of(*final(m)) == matched_of(*old(m)),
        snapshot_total(*final(m)) == snapshot_total(*old(m)),
{
    m.pattern.reparse(
        0,
        text.as_str(),
        nucleo::pattern::CaseMatching::Smart,
        nucleo::pattern::Normalization::Smart,
        append,
    );
}

/// Relies on `nucleo::Nucleo::tick`: advances scoring by at most `timeout`
/// milliseconds and refreshes the snapshot. When it reports that no work is
/// running, every injected item has been scored against the current
/// pattern; with an empty pattern that means every item matches, in
/// injection order. Matched items always come from the injected items.
#[verifier::external_body]
fn tick_matcher(m: &mut nucleo::Nucleo<String>, timeout: u64) -> (running: bool)
    ensures
        matcher_items(*final(m)) == matcher_items(*old(m)),
        matcher_pattern(*final(m)) == matcher_pattern(*old(m)),
        matcher_append_hint(*final(m)) == matcher_append_hint(*old(m)),
        matched_of(*final(m)).len() <= matcher_items(*final(m)).len(),
        snapshot_total(*final(m)) <= matcher_items(*final(m)).len(),
        forall|i: int|
            0 <= i < matched_of(*final(m)).len() ==> matcher_items(*final(m)).contains(
                #[trigger] matched_of(*final(m))[i],
            ),
        !running ==> snapshot_total(*final(m)) == matcher_items(*final(m)).len(),
        !running ==> (matcher_pattern(*final(m)).len() == 0 ==> matched_of(*final(m))
            == matcher_items(*final(m))),
{
    m.tick(timeout).running
}

/// Relies on `nucleo::Snapshot::matched_item_count`.
#[verifier::external_body]
fn matched_count(m: &nucleo::Nucleo<String>) -> (r: u32)
    ensures
        r as int == matched_of(*m).len(),
{
    m.snapshot().matched_item_count()
}

/// Relies on `nucleo::Snapshot::item_count`.
#[verifier::external_body]
fn total_count(m: &nucleo::Nucleo<String>) -> (r: u32)
    ensures
        r as int == snapshot_total(*m),
{
    m.snapshot().item_count()
}

/// Relies on `nucleo::Snapshot::get_matched_item`: hands back the item of
/// the `n`-th best match, exactly when `n` is below the matched count.
#[verifier::external_body]
fn get_matched(m: &nucleo::Nucleo<String>, n: u32) -> (r: Option<String>)
    ensures
        r is Some <==> (n as int) < matched_of(*m).len(),
        r is Some ==> r.unwrap()@ == matched_of(*m)[n as int],
{
    m.snapshot().get_matched_item(n).map(|item| item.data.clone())
}

// ---------------------------------------------------------------------------
// Picker data model
// ---------------------------------------------------------------------------

/// What the preview pane shows for the highlighted entry.
#[derive(Debug, Clone, Copy, PartialEq, Eq, Structural)]
pub enum Preview {
    SessionPane,
    WindowPane,
    Directory,
}

/// Where the filter input line sits.
#[derive(Debug, Clone, Copy, PartialEq, Eq, Structural)]
pub enum InputPosition {
    Top,
    Bottom,
}

impl Default for InputPosition {
    fn default() -> (r: InputPosition)
        ensures
            r == InputPosition::Bottom,
    {
        InputPosition::Bottom
    }
}

/// One selectable entry: a discovered project or a live session.
#[derive(Debug, Clone)]
pub enum PickerItem {
    Project { name: String, path: String },
    TmuxSession(String),
}

/// The name of a picker item.
pub open spec fn spec_item_name(item: PickerItem) -> Seq<char> {
    match item {
        PickerItem::Project { name, .. } => name@,
        PickerItem::TmuxSession(name) => name@,
    }
}

/// `running` holds `name`.
pub open spec fn spec_runs(running: Seq<String>, name: Seq<char>) -> bool {
    exists|j: int| 0 <= j < running.len() && (#[trigger] running[j])@ == name
}

fn name_listed(running: &Vec<String>, name: &str) -> (r: bool)
    ensures
        r == spec_runs(running@, name@),
{
    let n = running.len();
    let mut i: usize = 0;
    while i < n
        invariant
            n == running@.len(),
            i <= n,
            forall|j: int| 0 <= j < i ==> (#[trigger] running@[j])@ != name@,
        decreases n - i,
    {
        if str_eq(running[i].as_str(), name) {
            proof {
                assert((running@[i as int])@ == name@);
            }
            return true;
        }
        i = i + 1;
    }
    false
}

impl PickerItem {
    /// The bare name of the entry.
    pub fn name(&self) -> (r: &str)
        ensures
            r@ == spec_item_name(*self),
    {
        match self {
            PickerItem::Project { name, .. } => name.as_str(),
            PickerItem::TmuxSession(name) => name.as_str(),
        }
    }

    /// The label shown in the list: a `* ` marker in front of entries whose
    /// session is currently running.
    pub fn display_name(&self, running_sessions: &Vec<String>) -> (r: String)
        ensures
            spec_runs(running_sessions@, spec_item_name(*self)) ==> r@ == seq!['*', ' ']
                + spec_item_name(*self),
            !spec_runs(running_sessions@, spec_item_name(*self)) ==> r@ == spec_item_name(*self),
    {
        let name = self.name();
        if name_listed(running_sessions, name) {
            let mut s = String::new();
            push_char(&mut s, '*');
            push_char(&mut s, ' ');
            s.append(name);
            proof {
                assert(s@ =~= seq!['*', ' '] + name@);
            }
            s
        } else {
            name.to_owned()
        }
    }

    /// Whether a session of this name is running.
    pub fn is_running(&self, running_sessions: &Vec<String>) -> (r: bool)
        ensures
            r == spec_runs(running_sessions@, spec_item_name(*self)),
    {
        name_listed(running_sessions, self.name())
    }
}

// ---------------------------------------------------------------------------
// Selection arithmetic
// ---------------------------------------------------------------------------

/// Selection after one logical step toward higher ranks, wrapping past the
/// end. A step on an empty list changes nothing.
pub open spec fn sel_step_up(sel: Option<usize>, count: int) -> Option<usize> {
    if count == 0 {
        sel
    } else {
        match sel {
            Some(i) => if i + 1 >= count {
                Some(0usize)
            } else {
                Some((i + 1) as usize)
            },
            None => Some(0usize),
        }
    }
}

/// Selection after one logical step toward rank 0, wrapping at the front.
pub open spec fn sel_step_down(sel: Option<usize>, count: int) -> Option<usize> {
    match sel {
        Some(i) => if i == 0 {
            if count == 0 {
                sel
            } else {
                Some((count - 1) as usize)
            }
        } else {
            Some((i - 1) as usize)
        },
        None => Some(0usize),
    }
}

/// The selection after reconciling with a fresh matched count: none exactly
/// when nothing matches, otherwise clamped into range, defaulting to the
/// top rank.
pub open spec fn sel_reconciled(sel: Option<usize>, count: int) -> Option<usize> {
    if count == 0 {
        None
    } else {
        match sel {
            Some(i) => if i >= count {
                Some((count - 1) as usize)
            } else {
                Some(i)
            },
            None => Some(0usize),
        }
    }
}

/// Law: one step up then one step down (or the other way round) lands back
/// on the starting rank, for any in-range selection.
pub proof fn lemma_step_round_trip(i: usize, count: int)
    requires
        0 <= i < count,
        count <= usize::MAX,
    ensures
        sel_step_down(sel_step_up(Some(i), count), count) == Some(i),
        sel_step_up(sel_step_down(Some(i), count), count) == Some(i),
{
}

/// `n` logical steps toward higher ranks.
pub open spec fn sel_steps_up(sel: Option<usize>, count: int, n: nat) -> Option<usize>
    decreases n,
{
    if n == 0 {
        sel
    } else {
        sel_steps_up(sel_step_up(sel, count), count, (n - 1) as nat)
    }
}

/// `n` logical steps toward rank 0.
pub open spec fn sel_steps_down(sel: Option<usize>, count: int, n: nat) -> Option<usize>
    decreases n,
{
    if n == 0 {
        sel
    } else {
        sel_steps_down(sel_step_down(sel, count), count, (n - 1) as nat)
    }
}

/// A step up keeps the selection in range.
proof fn lemma_step_up_in_range(i: usize, count: int)
    requires
        0 <= i < count,
        count <= usize::MAX,
    ensures
        sel_step_up(Some(i), count) matches Some(j) && 0 <= j < count,
{
}

/// Law: `n` steps in one direction followed by `n` steps in the other
/// return to the original rank, for any in-range selection. This holds for
/// every `n`, in particular for `n` below the matched count.
pub proof fn lemma_nav_round_trip(i: usize, count: int, n: nat)
    requires
        0 <= i < count,
        count <= usize::MAX,
    ensures
        sel_steps_down(sel_steps_up(Some(i), count, n), count, n) == Some(i),
        sel_steps_up(sel_steps_down(Some(i), count, n), count, n) == Some(i),
    decreases n,
{
    if n > 0 {
        let up1 = sel_step_up(Some(i), count);
        lemma_step_up_in_range(i, count);
        let j = up1.unwrap();
        lemma_nav_round_trip(j, count, (n - 1) as nat);
        lemma_step_round_trip(i, count);
        assert(sel_steps_down(sel_steps_up(Some(i), count, n), count, n) == sel_step_down(
            sel_steps_down(sel_steps_up(up1, count, (n - 1) as nat), count, (n - 1) as nat),
            count,
        )) by {
            lemma_steps_down_shift(sel_steps_up(up1, count, (n - 1) as nat), count, (n - 1) as nat);
        }
        let down1 = sel_step_down(Some(i), count);
        assert(down1 matches Some(d) && 0 <= d < count);
        let d = down1.unwrap();
        lemma_nav_round_trip(d, count, (n - 1) as nat);
        assert(sel_steps_up(sel_steps_down(Some(i), count, n), count, n) == sel_step_up(
            sel_steps_up(sel_steps_down(down1, count, (n - 1) as nat), count, (n - 1) as nat),
            count,
        )) by {
            lemma_steps_up_shift(sel_steps_down(down1, count, (n - 1) as nat), count, (n - 1) as nat);
        }
    }
}

/// Taking the last of `n + 1` down-steps out of the loop.
proof fn lemma_steps_down_shift(sel: Option<usize>, count: int, n: nat)
    ensures
        sel_steps_down(sel, count, n + 1) == sel_step_down(sel_steps_down(sel, count, n), count),
    decreases n,
{
    if n > 0 {
        lemma_steps_down_shift(sel_step_down(sel, count), count, (n - 1) as nat);
        assert(sel_steps_down(sel, count, n + 1) == sel_steps_down(
            sel_step_down(sel, count),
            count,
            n,
        ));
        assert(sel_steps_down(sel, count, n) == sel_steps_down(
            sel_step_down(sel, count),
            count,
            (n - 1) as nat,
        ));
    }
}

/// Taking the last of `n + 1` up-steps out of the loop.
proof fn lemma_steps_up_shift(sel: Option<usize>, count: int, n: nat)
    ensures
        sel_steps_up(sel, count, n + 1) == sel_step_up(sel_steps_up(sel, count, n), count),
    decreases n,
{
    if n > 0 {
        lemma_steps_up_shift(sel_step_up(sel, count), count, (n - 1) as nat);
        assert(sel_steps_up(sel, count, n + 1) == sel_steps_up(
            sel_step_up(sel, count),
            count,
            n,
        ));
        assert(sel_steps_up(sel, count, n) == sel_steps_up(
            sel_step_up(sel, count),
            count,
            (n - 1) as nat,
        ));
    }
}

// ---------------------------------------------------------------------------
// The picker
// ---------------------------------------------------------------------------

/// What one handled key means for the surrounding loop.
#[derive(Debug, Clone, PartialEq, Eq)]
pub enum PickerOutcome {
    Continue,
    Cancelled,
    Confirmed(String),
}

/// The interactive controller: the matcher, the filter line, the cursor,
/// the selection and the keymap. The surrounding loop renders a frame from
/// `render_plan`, waits for a key and hands it to `handle_key`.
pub struct Picker {
    pub matcher: nucleo::Nucleo<String>,
    pub preview: Option<Preview>,
    pub colors: Option<PickerColorConfig>,
    pub selection: Option<usize>,
    pub filter: Vec<char>,
    pub cursor_pos: usize,
    pub keymap: Keymap,
    pub input_position: InputPosition,
}

impl Picker {
    /// The cursor always sits inside or at the end of the filter text, and
    /// the filter stays within its cap.
    pub open spec fn wf(&self) -> bool {
        self.cursor_pos <= self.filter@.len() && self.filter@.len() <= 65535
    }

    /// Builds a picker over the given labels: the matcher is seeded once
    /// with every label, the filter is empty, nothing is selected yet, and
    /// the effective keymap is the default one with the caller's sparse
    /// overrides layered on top (the caller's binding wins on conflict).
    pub fn new(
        list: &Vec<String>,
        preview: Option<Preview>,
        keymap: Option<&Keymap>,
        input_position: InputPosition,
    ) -> (r: Picker)
        ensures
            r.wf(),
            matcher_items(r.matcher) == list@.map_values(|s: String| s@),
            matcher_pattern(r.matcher) == Seq::<char>::empty(),
            r.selection is None,
            r.filter@ == Seq::<char>::empty(),
            r.cursor_pos == 0,
            r.input_position == input_position,
            r.preview == preview,
            r.colors is None,
            forall|k: Key|
                #[trigger] r.keymap.spec_get(k) == (match keymap {
                    Some(overrides) => if overrides.spec_get(k) is Some {
                        overrides.spec_get(k)
                    } else {
                        binding_of(default_entries(), k)
                    },
                    None => binding_of(default_entries(), k),
                }),
    {
        let mut matcher = new_matcher();
        let n = list.len();
        let mut i: usize = 0;
        proof {
            assert(matcher_items(matcher) =~= list@.map_values(|s: String| s@).take(0));
        }
        while i < n
            invariant
                n == list@.len(),
                i <= n,
                matcher_items(matcher) == list@.map_values(|s: String| s@).take(i as int),
                matcher_pattern(matcher) == Seq::<char>::empty(),
            decreases n - i,
        {
            push_item(&mut matcher, &list[i]);
            i = i + 1;
            proof {
                assert(matcher_items(matcher) =~= list@.map_values(|s: String| s@).take(
                    i as int,
                ));
            }
        }
        proof {
            assert(list@.map_values(|s: String| s@).take(n as int) =~= list@.map_values(
                |s: String| s@,
            ));
        }
        let keymap = match keymap {
            Some(overrides) => with_defaults(overrides),
            None => default_keymap(),
        };
        Picker {
            matcher,
            preview,
            colors: None,
            selection: None,
            filter: Vec::new(),
            cursor_pos: 0,
            keymap,
            input_position,
        }
    }

    /// Installs a color theme.
    pub fn set_colors(self, colors: Option<PickerColorConfig>) -> (r: Picker)
        ensures
            r == (Picker { colors, ..self }),
    {
        Picker { colors, ..self }
    }

    /// Advances the matcher's background scoring by at most `timeout`
    /// milliseconds.
    pub fn tick(&mut self, timeout: u64) -> (running: bool)
        requires
            old(self).wf(),
        ensures
            final(self).wf(),
            matcher_items(final(self).matcher) == matcher_items(old(self).matcher),
            matcher_pattern(final(self).matcher) == matcher_pattern(old(self).matcher),
            final(self).selection == old(self).selection,
            final(self).filter == old(self).filter,
            final(self).cursor_pos == old(self).cursor_pos,
            picker_frame(*old(self), *final(self)),
            !running ==> (matcher_pattern(final(self).matcher).len() == 0 ==> matched_of(
                final(self).matcher,
            ) == matcher_items(final(self).matcher)),
    {
        tick_matcher(&mut self.matcher, timeout)
    }

    /// Law (selection): reconciles the selection
    /// with the current matched count. Afterwards the selection is `None`
    /// exactly when nothing matches, and otherwise lies in
    /// `[0, matched count)`.
    pub fn update_selection(&mut self)
        requires
            old(self).wf(),
        ensures
            final(self).wf(),
            final(self).matcher == old(self).matcher,
            final(self).filter == old(self).filter,
            final(self).cursor_pos == old(self).cursor_pos,
            picker_frame(*old(self), *final(self)),
            final(self).selection == sel_reconciled(
                old(self).selection,
                matched_of(old(self).matcher).len() as int,
            ),
            final(self).selection is None <==> matched_of(final(self).matcher).len() == 0,
            final(self).selection matches Some(i) ==> (i as int) < matched_of(
                final(self).matcher,
            ).len(),
    {
        let count = matched_count(&self.matcher) as usize;
        match self.selection {
            Some(selected) => {
                if count == 0 {
                    self.selection = None;
                } else if selected >= count {
                    self.selection = Some(count - 1);
                }
            },
            None => {
                if count > 0 {
                    self.selection = Some(0);
                }
            },
        }
    }

    /// The label of the currently highlighted match, if any.
    pub fn get_selected(&self) -> (r: Option<String>)
        ensures
            match r {
                Some(s) => self.selection matches Some(i) && (i as int) < matched_of(
                    self.matcher,
                ).len() && s@ == matched_of(self.matcher)[self.selection.unwrap() as int],
                None => self.selection is None || (self.selection.unwrap() as int) >= matched_of(
                    self.matcher,
                ).len(),
            },
    {
        match self.selection {
            Some(index) => {
                let count = matched_count(&self.matcher);
                if index < count as usize {
                    get_matched(&self.matcher, index as u32)
                } else {
                    None
                }
            },
            None => None,
        }
    }

    // -- navigation ---------------------------------------------------------

    /// One step toward higher ranks, wrapping past the end.
    pub fn do_move_up(&mut self)
        requires
            old(self).wf(),
        ensures
            final(self).wf(),
            final(self).matcher == old(self).matcher,
            final(self).filter == old(self).filter,
            final(self).cursor_pos == old(self).cursor_pos,
            picker_frame(*old(self), *final(self)),
            final(self).selection == sel_step_up(
                old(self).selection,
                matched_of(old(self).matcher).len() as int,
            ),
    {
        let item_count = matched_count(&self.matcher) as usize;
        if item_count == 0 {
            return ;
        }
        let max = item_count - 1;
        match self.selection {
            Some(i) => {
                if i >= max {
                    self.selection = Some(0);
                } else {
                    self.selection = Some(i + 1);
                }
            },
            None => {
                self.selection = Some(0);
            },
        }
    }

    /// One step toward rank 0, wrapping at the front.
    pub fn do_move_down(&mut self)
        requires
            old(self).wf(),
        ensures
            final(self).wf(),
            final(self).matcher == old(self).matcher,
            final(self).filter == old(self).filter,
            final(self).cursor_pos == old(self).cursor_pos,
            picker_frame(*old(self), *final(self)),
            final(self).selection == sel_step_down(
                old(self).selection,
                matched_of(old(self).matcher).len() as int,
            ),
    {
        match self.selection {
            Some(i) => {
                if i == 0 {
                    let item_count = matched_count(&self.matcher) as usize;
                    if item_count == 0 {
                        return ;
                    }
                    self.selection = Some(item_count - 1);
                } else {
                    self.selection = Some(i - 1);
                }
            },
            None => {
                self.selection = Some(0);
            },
        }
    }

    /// The physically-upward key: logical direction depends on where the
    /// input line is anchored, so the highlight always moves visually up.
    pub fn move_up(&mut self)
        requires
            old(self).wf(),
        ensures
            final(self).wf(),
            move_up_effect(*old(self), *final(self)),
    {
        if self.input_position == InputPosition::Bottom {
            self.do_move_up();
        } else {
            self.do_move_down();
        }
    }

    /// The physically-downward key; see `move_up`.
    pub fn move_down(&mut self)
        requires
            old(self).wf(),
        ensures
            final(self).wf(),
            move_down_effect(*old(self), *final(self)),
    {
        if self.input_position == InputPosition::Bottom {
            self.do_move_down();
        } else {
            self.do_move_up();
        }
    }

    // -- cursor movement ----------------------------------------------------

    pub fn move_cursor_left(&mut self)
        requires
            old(self).wf(),
        ensures
            final(self).wf(),
            unchanged_but_cursor(old(self), final(self)),
            final(self).cursor_pos == if old(self).cursor_pos > 0 {
                (old(self).cursor_pos - 1) as usize
            } else {
                0usize
            },
    {
        if self.cursor_pos > 0 {
            self.cursor_pos = self.cursor_pos - 1;
        }
    }

    pub fn move_cursor_right(&mut self)
        requires
            old(self).wf(),
        ensures
            final(self).wf(),
            unchanged_but_cursor(old(self), final(self)),
            final(self).cursor_pos == if old(self).cursor_pos < old(self).filter@.len() {
                (old(self).cursor_pos + 1) as usize
            } else {
                old(self).cursor_pos
            },
    {
        if self.cursor_pos < self.filter.len() {
            self.cursor_pos = self.cursor_pos + 1;
        }
    }

    pub fn move_to_start(&mut self)
        requires
            old(self).wf(),
        ensures
            final(self).wf(),
            unchanged_but_cursor(old(self), final(self)),
            final(self).cursor_pos == 0,
    {
        self.cursor_pos = 0;
    }

    pub fn move_to_end(&mut self)
        requires
            old(self).wf(),
        ensures
            final(self).wf(),
            unchanged_but_cursor(old(self), final(self)),
            final(self).cursor_pos == old(self).filter@.len(),
    {
        self.cursor_pos = self.filter.len();
    }

    // -- filter editing -----------------------------------------------------

    /// Reparses the matcher pattern from the current filter; the is-append
    /// hint is passed exactly when the new text extends the old one.
    fn update_matcher_pattern(&mut self, prev: &Vec<char>)
        requires
            old(self).wf(),
        ensures
            final(self).wf(),
            matcher_items(final(self).matcher) == matcher_items(old(self).matcher),
            matcher_pattern(final(self).matcher) == old(self).filter@,
            matcher_append_hint(final(self).matcher) == prev@.is_prefix_of(old(self).filter@),
            matched_of(final(self).matcher) == matched_of(old(self).matcher),
            final(self).filter == old(self).filter,
            final(self).cursor_pos == old(self).cursor_pos,
            final(self).selection == old(self).selection,
            picker_frame(*old(self), *final(self)),
    {
        let mut append = prev.len() <= self.filter.len();
        proof {
            if !append {
                assert(!prev@.is_prefix_of(self.filter@));
            }
        }
        let mut i: usize = 0;
        while append && i < prev.len()
            invariant
                i <= prev@.len(),
                append ==> prev@.len() <= self.filter@.len(),
                append ==> forall|k: int| 0 <= k < i ==> prev@[k] == self.filter@[k],
                !append ==> !prev@.is_prefix_of(self.filter@),
            decreases prev@.len() - i + (if append {
                1int
            } else {
                0int
            }),
        {
            if self.filter[i] != prev[i] {
                proof {
                    if prev@.is_prefix_of(self.filter@) {
                        assert(prev@[i as int] == self.filter@.subrange(
                            0,
                            prev@.len() as int,
                        )[i as int]);
                    }
                }
                append = false;
            } else {
                i = i + 1;
            }
        }
        proof {
            if append {
                assert(prev@ =~= self.filter@.subrange(0, prev@.len() as int));
                assert(prev@.is_prefix_of(self.filter@));
            }
        }
        let text = from_chars(&self.filter);
        reparse_pattern(&mut self.matcher, &text, append);
    }

    /// Inserts a character at the cursor; the full filter is capped. Any
    /// real change reparses the matcher pattern.
    pub fn update_filter(&mut self, c: char)
        requires
            old(self).wf(),
        ensures
            final(self).wf(),
            insert_effect(*old(self), *final(self), c),
    {
        if self.filter.len() >= 65535 {
            return ;
        }
        let prev = clone_chars(&self.filter);
        self.filter.insert(self.cursor_pos, c);
        self.cursor_pos = self.cursor_pos + 1;
        self.update_matcher_pattern(&prev);
    }

    /// Backspace: removes the character before the cursor. A no-op at
    /// position 0 must not reparse, and does not.
    pub fn remove_filter(&mut self)
        requires
            old(self).wf(),
        ensures
            final(self).wf(),
            backspace_effect(*old(self), *final(self)),
    {
        if self.cursor_pos == 0 {
            return ;
        }
        let prev = clone_chars(&self.filter);
        self.filter.remove(self.cursor_pos - 1);
        self.cursor_pos = self.cursor_pos - 1;
        self.update_matcher_pattern(&prev);
    }

    /// Delete: removes the character at the cursor. A no-op at the end of
    /// the line must not reparse, and does not.
    pub fn delete(&mut self)
        requires
            old(self).wf(),
        ensures
            final(self).wf(),
            delete_effect(*old(self), *final(self)),
    {
        if self.cursor_pos == self.filter.len() {
            return ;
        }
        let prev = clone_chars(&self.filter);
        self.filter.remove(self.cursor_pos);
        self.update_matcher_pattern(&prev);
    }

    /// Delete-word-backward: erases the trailing run of spaces, then the
    /// trailing run of non-spaces, before the cursor.
    pub fn delete_word(&mut self)
        requires
            old(self).wf(),
        ensures
            final(self).wf(),
            delete_word_effect(*old(self), *final(self)),
    {
        let ghost oldf = self.filter@;
        let ghost oldc = self.cursor_pos as int;
        // trailing spaces before the cursor
        let mut sp: usize = 0;
        while self.cursor_pos - sp > 0 && self.filter[self.cursor_pos - sp - 1] == ' '
            invariant
                self.filter@ == oldf,
                self.cursor_pos as int == oldc,
                self.cursor_pos <= self.filter@.len(),
                sp <= self.cursor_pos,
                forall|k: int| oldc - sp <= k < oldc ==> oldf[k] == ' ',
            decreases self.cursor_pos - sp,
        {
            sp = sp + 1;
        }
        proof {
            lemma_space_run_char(oldf, oldc, sp as int);
        }
        // then the non-space run before those
        let base = self.cursor_pos - sp;
        let mut ns: usize = 0;
        while base - ns > 0 && self.filter[base - ns - 1] != ' '
            invariant
                self.filter@ == oldf,
                self.cursor_pos as int == oldc,
                base == oldc - sp,
                sp <= self.cursor_pos <= self.filter@.len(),
                ns <= base,
                forall|k: int| base - ns <= k < base ==> oldf[k] != ' ',
            decreases base - ns,
        {
            ns = ns + 1;
        }
        proof {
            lemma_nonspace_run_char(oldf, oldc - sp, ns as int);
        }
        let length = if sp + ns > self.cursor_pos {
            self.cursor_pos
        } else {
            sp + ns
        };
        proof {
            assert(length as int == word_del_len(oldf, oldc));
        }
        if length == 0 {
            proof {
                assert(self.filter@ =~= oldf.take(oldc - 0) + oldf.skip(oldc));
            }
            return ;
        }
        let prev = clone_chars(&self.filter);
        let new_cursor = self.cursor_pos - length;
        let mut t: usize = 0;
        while t < length
            invariant
                t <= length,
                0 < length <= oldc,
                oldc <= oldf.len(),
                new_cursor == oldc - length,
                self.filter@ == oldf.take(new_cursor as int) + oldf.skip(new_cursor + t),
                self.cursor_pos as int == oldc,
                self.matcher == old(self).matcher,
                self.selection == old(self).selection,
                self.keymap == old(self).keymap,
                self.input_position == old(self).input_position,
                self.preview == old(self).preview,
                self.colors == old(self).colors,
            decreases length - t,
        {
            let ghost pre = self.filter@;
            self.filter.remove(new_cursor);
            t = t + 1;
            proof {
                assert(self.filter@ =~= oldf.take(new_cursor as int) + oldf.skip(
                    new_cursor + t,
                )) by {
                    assert(pre.remove(new_cursor as int) =~= oldf.take(new_cursor as int)
                        + oldf.skip(new_cursor + t));
                }
            }
        }
        self.cursor_pos = new_cursor;
        self.update_matcher_pattern(&prev);
    }

    /// Deletes from the cursor to the end of the line (`forward`), or from
    /// the start of the line to the cursor.
    pub fn delete_to_line(&mut self, forward: bool)
        requires
            old(self).wf(),
        ensures
            final(self).wf(),
            delete_to_line_effect(*old(self), *final(self), forward),
    {
        let ghost oldf = self.filter@;
        let ghost oldc = self.cursor_pos as int;
        if forward {
            if self.cursor_pos == self.filter.len() {
                proof {
                    assert(self.filter@ =~= oldf.take(oldc));
                }
                return ;
            }
            let prev = clone_chars(&self.filter);
            while self.filter.len() > self.cursor_pos
                invariant
                    self.cursor_pos as int == oldc,
                    0 <= oldc <= self.filter@.len(),
                    self.filter@.len() <= oldf.len(),
                    oldc <= oldf.len(),
                    self.filter@ == oldf.take(self.filter@.len() as int),
                    self.matcher == old(self).matcher,
                    self.selection == old(self).selection,
                    self.keymap == old(self).keymap,
                    self.input_position == old(self).input_position,
                    self.preview == old(self).preview,
                    self.colors == old(self).colors,
                decreases self.filter@.len(),
            {
                let ghost pre = self.filter@;
                self.filter.pop();
                proof {
                    assert(self.filter@ =~= pre.drop_last());
                    assert(self.filter@ =~= oldf.take(self.filter@.len() as int));
                }
            }
            proof {
                assert(self.filter@ =~= oldf.take(oldc));
            }
            self.update_matcher_pattern(&prev);
        } else {
            if self.cursor_pos == 0 {
                proof {
                    assert(self.filter@ =~= oldf.skip(0));
                }
                return ;
            }
            let prev = clone_chars(&self.filter);
            let mut t: usize = 0;
            let cut = self.cursor_pos;
            while t < cut
                invariant
                    t <= cut,
                    cut as int == oldc,
                    0 <= oldc <= oldf.len(),
                    self.filter@ == oldf.skip(t as int),
                    self.cursor_pos as int == oldc,
                    self.matcher == old(self).matcher,
                    self.selection == old(self).selection,
                    self.keymap == old(self).keymap,
                    self.input_position == old(self).input_position,
                    self.preview == old(self).preview,
                    self.colors == old(self).colors,
                decreases cut - t,
            {
                self.filter.remove(0);
                t = t + 1;
                proof {
                    assert(self.filter@ =~= oldf.skip(t as int));
                }
            }
            self.cursor_pos = 0;
            self.update_matcher_pattern(&prev);
        }
    }

    // -- key dispatch -------------------------------------------------------

    /// Dispatches one pressed key through the keymap: the picker state
    /// machine's transition. `Cancelled` and `Confirmed` are the terminal
    /// outcomes; a confirm with nothing selected is a no-op; every bound
    /// action performs exactly its transition; a key without a binding
    /// inserts its character literally when it has one and does nothing
    /// otherwise.
    pub fn handle_key(&mut self, key: Key) -> (r: PickerOutcome)
        requires
            old(self).wf(),
        ensures
            final(self).wf(),
            picker_frame(*old(self), *final(self)),
            matcher_items(final(self).matcher) == matcher_items(old(self).matcher),
            // the two terminal outcomes
            r == PickerOutcome::Cancelled <==> old(self).keymap.spec_get(key) == Some(
                PickerAction::Cancel,
            ),
            old(self).keymap.spec_get(key) == Some(PickerAction::Cancel) ==> picker_unchanged(
                *old(self),
                *final(self),
            ),
            r matches PickerOutcome::Confirmed(s) ==> old(self).keymap.spec_get(key) == Some(
                PickerAction::Confirm,
            ) && (old(self).selection matches Some(i) && (i as int) < matched_of(
                old(self).matcher,
            ).len()) && s@ == matched_of(old(self).matcher)[old(self).selection.unwrap() as int],
            old(self).keymap.spec_get(key) == Some(PickerAction::Confirm) ==> picker_unchanged(
                *old(self),
                *final(self),
            ) && ((old(self).selection matches Some(i) && (i as int) < matched_of(
                old(self).matcher,
            ).len()) ==> r is Confirmed) && (!(old(self).selection matches Some(i) && (
            i as int) < matched_of(old(self).matcher).len()) ==> r == PickerOutcome::Continue),
            // the editing actions
            old(self).keymap.spec_get(key) == Some(PickerAction::Backspace) ==> backspace_effect(
                *old(self),
                *final(self),
            ) && r == PickerOutcome::Continue,
            old(self).keymap.spec_get(key) == Some(PickerAction::Delete) ==> delete_effect(
                *old(self),
                *final(self),
            ) && r == PickerOutcome::Continue,
            old(self).keymap.spec_get(key) == Some(PickerAction::DeleteWord)
                ==> delete_word_effect(*old(self), *final(self)) && r == PickerOutcome::Continue,
            old(self).keymap.spec_get(key) == Some(PickerAction::DeleteToLineStart)
                ==> delete_to_line_effect(*old(self), *final(self), false) && r
                == PickerOutcome::Continue,
            old(self).keymap.spec_get(key) == Some(PickerAction::DeleteToLineEnd)
                ==> delete_to_line_effect(*old(self), *final(self), true) && r
                == PickerOutcome::Continue,
            // the navigation actions
            old(self).keymap.spec_get(key) == Some(PickerAction::MoveUp) ==> move_up_effect(
                *old(self),
                *final(self),
            ) && r == PickerOutcome::Continue,
            old(self).keymap.spec_get(key) == Some(PickerAction::MoveDown) ==> move_down_effect(
                *old(self),
                *final(self),
            ) && r == PickerOutcome::Continue,
            // the cursor actions
            old(self).keymap.spec_get(key) == Some(PickerAction::CursorLeft)
                ==> unchanged_but_cursor(old(self), final(self)) && final(self).cursor_pos == (
            if old(self).cursor_pos > 0 {
                (old(self).cursor_pos - 1) as usize
            } else {
                0usize
            }) && r == PickerOutcome::Continue,
            old(self).keymap.spec_get(key) == Some(PickerAction::CursorRight)
                ==> unchanged_but_cursor(old(self), final(self)) && final(self).cursor_pos == (
            if old(self).cursor_pos < old(self).filter@.len() {
                (old(self).cursor_pos + 1) as usize
            } else {
                old(self).cursor_pos
            }) && r == PickerOutcome::Continue,
            old(self).keymap.spec_get(key) == Some(PickerAction::MoveToLineStart)
                ==> unchanged_but_cursor(old(self), final(self)) && final(self).cursor_pos == 0
                && r == PickerOutcome::Continue,
            old(self).keymap.spec_get(key) == Some(PickerAction::MoveToLineEnd)
                ==> unchanged_but_cursor(old(self), final(self)) && final(self).cursor_pos == old(
                self,
            ).filter@.len() && r == PickerOutcome::Continue,
            // a bound no-op does nothing
            old(self).keymap.spec_get(key) == Some(PickerAction::Noop) ==> picker_unchanged(
                *old(self),
                *final(self),
            ) && r == PickerOutcome::Continue,
            // unmapped keys: a printable character is inserted literally,
            // anything else changes nothing
            old(self).keymap.spec_get(key) is None ==> r == PickerOutcome::Continue,
            old(self).keymap.spec_get(key) is None && !(key.code is Char) ==> picker_unchanged(
                *old(self),
                *final(self),
            ),
            old(self).keymap.spec_get(key) is None ==> (key.code matches KeyCode::Char(c)
                ==> insert_effect(*old(self), *final(self), c)),
    {
        match self.keymap.get(key) {
            Some(PickerAction::Cancel) => PickerOutcome::Cancelled,
            Some(PickerAction::Confirm) => {
                match self.get_selected() {
                    Some(selected) => PickerOutcome::Confirmed(selected),
                    None => PickerOutcome::Continue,
                }
            },
            Some(PickerAction::Backspace) => {
                self.remove_filter();
                PickerOutcome::Continue
            },
            Some(PickerAction::Delete) => {
                self.delete();
                PickerOutcome::Continue
            },
            Some(PickerAction::DeleteWord) => {
                self.delete_word();
                PickerOutcome::Continue
            },
            Some(PickerAction::DeleteToLineStart) => {
                self.delete_to_line(false);
                PickerOutcome::Continue
            },
            Some(PickerAction::DeleteToLineEnd) => {
                self.delete_to_line(true);
                PickerOutcome::Continue
            },
            Some(PickerAction::MoveUp) => {
                self.move_up();
                PickerOutcome::Continue
            },
            Some(PickerAction::MoveDown) => {
                self.move_down();
                PickerOutcome::Continue
            },
            Some(PickerAction::CursorLeft) => {
                self.move_cursor_left();
                PickerOutcome::Continue
            },
            Some(PickerAction::CursorRight) => {
                self.move_cursor_right();
                PickerOutcome::Continue
            },
            Some(PickerAction::MoveToLineStart) => {
                self.move_to_start();
                PickerOutcome::Continue
            },
            Some(PickerAction::MoveToLineEnd) => {
                self.move_to_end();
                PickerOutcome::Continue
            },
            Some(PickerAction::Noop) => PickerOutcome::Continue,
            None => {
                match key.code {
                    KeyCode::Char(c) => {
                        self.update_filter(c);
                        PickerOutcome::Continue
                    },
                    _ => PickerOutcome::Continue,
                }
            },
        }
    }

    // -- rendering ----------------------------------------------------------

    /// Computes everything a frame needs that the core can decide: the
    /// split direction, the effective input position (forced to the bottom
    /// in a vertical split), the list growth direction, the
    /// `matched/total` title, the filter text and the cursor column.
    pub fn render_plan(&self, width: u16, height: u16) -> (r: RenderPlan)
        requires
            self.wf(),
        ensures
            r.horizontal_split == ((width as int + 1) / 2 >= height as int),
            r.input_position == if self.preview is Some && !r.horizontal_split {
                InputPosition::Bottom
            } else {
                self.input_position
            },
            r.list_bottom_to_top == (r.input_position == InputPosition::Bottom),
            r.matched as int == matched_of(self.matcher).len(),
            r.total as int == snapshot_total(self.matcher),
            r.title@ == dec_digits(r.matched as int) + seq!['/'] + dec_digits(r.total as int),
            r.filter_text@ == self.filter@,
            r.cursor_col == self.cursor_pos + 2,
    {
        let horizontal_split = width / 2 + width % 2 >= height;
        let input_position = if self.preview.is_some() && !horizontal_split {
            InputPosition::Bottom
        } else {
            self.input_position
        };
        let matched = matched_count(&self.matcher);
        let total = total_count(&self.matcher);
        let mut title = u32_to_string(matched);
        push_char(&mut title, '/');
        let total_str = u32_to_string(total);
        title.append(total_str.as_str());
        proof {
            assert(title@ =~= dec_digits(matched as int) + seq!['/'] + dec_digits(total as int));
        }
        RenderPlan {
            horizontal_split,
            input_position,
            list_bottom_to_top: match input_position {
                InputPosition::Bottom => true,
                InputPosition::Top => false,
            },
            matched,
            total,
            title,
            filter_text: from_chars(&self.filter),
            cursor_col: self.cursor_pos + 2,
        }
    }

    /// What the preview pane needs: capture a host pane for session and
    /// window previews (a window entry's target is its first word, or
    /// nothing when the label has no space), or list the highlighted
    /// directory.
    pub fn preview_request(&self) -> (r: Option<PreviewRequest>)
        ensures
            r is None <==> (self.preview is None || self.selection is None || (
            self.selection.unwrap() as int) >= matched_of(self.matcher).len()),
            r matches Some(pr) ==> {
                let label = matched_of(self.matcher)[self.selection.unwrap() as int];
                match pr {
                    PreviewRequest::Pane(t) => (self.preview == Some(Preview::SessionPane) && t@
                        == label) || (self.preview == Some(Preview::WindowPane) && t@
                        == first_word_or_empty(label)),
                    PreviewRequest::Directory(t) => self.preview == Some(Preview::Directory) && t@
                        == label,
                }
            },
    {
        if self.preview.is_none() {
            return None;
        }
        let selected = match self.get_selected() {
            Some(s) => s,
            None => {
                return None;
            },
        };
        match self.preview {
            Some(Preview::SessionPane) => Some(PreviewRequest::Pane(selected)),
            Some(Preview::WindowPane) => {
                let ghost label = selected@;
                let chars = crate::strutil::to_chars(selected.as_str());
                let mut head: Vec<char> = Vec::new();
                let mut i: usize = 0;
                let mut seen_space = false;
                while i < chars.len() && !seen_space
                    invariant
                        chars@ == label,
                        i <= chars@.len(),
                        forall|k: int| 0 <= k < i ==> chars@[k] != ' ',
                        seen_space ==> i < chars@.len() && chars@[i as int] == ' ',
                        head@ == chars@.take(i as int),
                    decreases chars@.len() - i + (if seen_space {
                        0int
                    } else {
                        1int
                    }),
                {
                    if chars[i] == ' ' {
                        seen_space = true;
                    } else {
                        head.push(chars[i]);
                        i = i + 1;
                        proof {
                            assert(head@ =~= chars@.take(i as int));
                        }
                    }
                }
                if seen_space {
                    proof {
                        lemma_space_pos_char(label, i as int);
                        assert(first_word_or_empty(label) == label.take(i as int));
                    }
                    Some(PreviewRequest::Pane(from_chars(&head)))
                } else {
                    proof {
                        lemma_space_pos_none(label);
                        assert(first_word_or_empty(label) == Seq::<char>::empty());
                    }
                    let empty = String::new();
                    Some(PreviewRequest::Pane(empty))
                }
            },
            Some(Preview::Directory) => Some(PreviewRequest::Directory(selected)),
            None => None,
        }
    }

    /// The matched labels of the current snapshot, best rank first: what
    /// the list pane shows.
    pub fn matched_labels(&self) -> (r: Vec<String>)
        ensures
            r@.map_values(|s: String| s@) == matched_of(self.matcher),
    {
        let count = matched_count(&self.matcher);
        let mut v: Vec<String> = Vec::new();
        let mut i: u32 = 0;
        proof {
            assert(v@.map_values(|s: String| s@) =~= matched_of(self.matcher).take(0));
        }
        while i < count
            invariant
                count as int == matched_of(self.matcher).len(),
                i <= count,
                v@.map_values(|s: String| s@) == matched_of(self.matcher).take(i as int),
            decreases count - i,
        {
            let item = get_matched(&self.matcher, i).unwrap();
            let ghost vpre = v@;
            let ghost itemv = item@;
            v.push(item);
            i = i + 1;
            proof {
                assert(v@ == vpre.push(v@.last()));
                assert(v@.last()@ == itemv);
                assert(v@.map_values(|s: String| s@) =~= vpre.map_values(|s: String| s@).push(
                    itemv,
                ));
                assert(v@.map_values(|s: String| s@) =~= matched_of(self.matcher).take(
                    i as int,
                ));
            }
        }
        proof {
            assert(matched_of(self.matcher).take(count as int) =~= matched_of(self.matcher));
        }
        v
    }

    // -- law: clearing the filter restores the candidate set ----------------

    /// Clears the filter and lets the matcher settle, then reads the
    /// matched labels back. When the matcher settles within the tick
    /// budget, the result is exactly the full injected label list, in
    /// injection order — clearing the query restores the original
    /// candidate set.
    pub fn clear_filter(&mut self) -> (r: Option<Vec<String>>)
        requires
            old(self).wf(),
        ensures
            final(self).wf(),
            matcher_items(final(self).matcher) == matcher_items(old(self).matcher),
            matcher_pattern(final(self).matcher) == Seq::<char>::empty(),
            final(self).filter@ == Seq::<char>::empty(),
            final(self).cursor_pos == 0,
            r matches Some(v) ==> v@.map_values(|s: String| s@) == matcher_items(
                old(self).matcher,
            ),
    {
        self.filter = Vec::new();
        self.cursor_pos = 0;
        let empty = String::new();
        reparse_pattern(&mut self.matcher, &empty, false);
        let mut tries: usize = 0;
        let mut running = tick_matcher(&mut self.matcher, 10);
        while running && tries < 1000
            invariant
                tries <= 1000,
                matcher_items(self.matcher) == matcher_items(old(self).matcher),
                matcher_pattern(self.matcher) == Seq::<char>::empty(),
                self.filter@ == Seq::<char>::empty(),
                self.cursor_pos == 0,
                !running ==> matched_of(self.matcher) == matcher_items(self.matcher),
            decreases 1000 - tries + (if running {
                1int
            } else {
                0int
            }),
        {
            running = tick_matcher(&mut self.matcher, 10);
            tries = tries + 1;
        }
        if running {
            return None;
        }
        let count = matched_count(&self.matcher);
        let mut v: Vec<String> = Vec::new();
        let mut i: u32 = 0;
        proof {
            assert(v@.map_values(|s: String| s@) =~= matched_of(self.matcher).take(0));
        }
        while i < count
            invariant
                count as int == matched_of(self.matcher).len(),
                i <= count,
                matcher_items(self.matcher) == matcher_items(old(self).matcher),
                matcher_pattern(self.matcher) == Seq::<char>::empty(),
                matched_of(self.matcher) == matcher_items(self.matcher),
                v@.map_values(|s: String| s@) == matched_of(self.matcher).take(i as int),
            decreases count - i,
        {
            let item = get_matched(&self.matcher, i).unwrap();
            let ghost vpre = v@;
            let ghost itemv = item@;
            v.push(item);
            i = i + 1;
            proof {
                assert(v@ == vpre.push(v@.last()));
                assert(v@.last()@ == itemv);
                assert(v@.map_values(|s: String| s@) =~= vpre.map_values(|s: String| s@).push(
                    itemv,
                ));
                assert(v@.map_values(|s: String| s@) =~= matched_of(self.matcher).take(
                    i as int,
                ));
            }
        }
        proof {
            assert(matched_of(self.matcher).take(count as int) =~= matched_of(self.matcher));
        }
        Some(v)
    }
}

/// A frame's layout decisions and texts; the drawing itself happens in the
/// surrounding application.
pub struct RenderPlan {
    pub horizontal_split: bool,
    pub input_position: InputPosition,
    pub list_bottom_to_top: bool,
    pub matched: u32,
    pub total: u32,
    pub title: String,
    pub filter_text: String,
    pub cursor_col: usize,
}

/// What the preview pane should be filled from.
#[derive(Debug, Clone)]
pub enum PreviewRequest {
    Pane(String),
    Directory(String),
}

/// The picker's configuration fields are untouched: the keymap, the input
/// position, the preview kind and the color theme.
pub open spec fn picker_frame(pre: Picker, post: Picker) -> bool {
    &&& post.keymap == pre.keymap
    &&& post.input_position == pre.input_position
    &&& post.preview == pre.preview
    &&& post.colors == pre.colors
}

/// Nothing about the picker changed.
pub open spec fn picker_unchanged(pre: Picker, post: Picker) -> bool {
    &&& post.matcher == pre.matcher
    &&& post.filter == pre.filter
    &&& post.cursor_pos == pre.cursor_pos
    &&& post.selection == pre.selection
    &&& picker_frame(pre, post)
}

/// The literal-insertion transition: the character goes in at the cursor,
/// the cursor advances, and the matcher pattern is reparsed to the new
/// text; a full filter changes nothing.
pub open spec fn insert_effect(pre: Picker, post: Picker, c: char) -> bool {
    &&& picker_frame(pre, post)
    &&& matcher_items(post.matcher) == matcher_items(pre.matcher)
    &&& post.selection == pre.selection
    &&& (pre.filter@.len() >= 65535 ==> post.filter == pre.filter && post.cursor_pos
        == pre.cursor_pos && post.matcher == pre.matcher)
    &&& (pre.filter@.len() < 65535 ==> {
        &&& post.filter@ == pre.filter@.insert(pre.cursor_pos as int, c)
        &&& post.cursor_pos == pre.cursor_pos + 1
        &&& matcher_pattern(post.matcher) == post.filter@
        &&& matcher_append_hint(post.matcher) == pre.filter@.is_prefix_of(post.filter@)
    })
}

/// The backspace transition: the character before the cursor is removed
/// and the pattern reparsed; at position 0 nothing changes and nothing is
/// reparsed.
pub open spec fn backspace_effect(pre: Picker, post: Picker) -> bool {
    &&& picker_frame(pre, post)
    &&& matcher_items(post.matcher) == matcher_items(pre.matcher)
    &&& post.selection == pre.selection
    &&& (pre.cursor_pos == 0 ==> post.filter == pre.filter && post.cursor_pos == 0
        && post.matcher == pre.matcher)
    &&& (pre.cursor_pos > 0 ==> {
        &&& post.filter@ == pre.filter@.remove(pre.cursor_pos - 1)
        &&& post.cursor_pos == pre.cursor_pos - 1
        &&& matcher_pattern(post.matcher) == post.filter@
        &&& matcher_append_hint(post.matcher) == pre.filter@.is_prefix_of(post.filter@)
    })
}

/// The delete transition: the character at the cursor is removed and the
/// pattern reparsed; at the end of the line nothing changes and nothing is
/// reparsed.
pub open spec fn delete_effect(pre: Picker, post: Picker) -> bool {
    &&& picker_frame(pre, post)
    &&& matcher_items(post.matcher) == matcher_items(pre.matcher)
    &&& post.selection == pre.selection
    &&& post.cursor_pos == pre.cursor_pos
    &&& (pre.cursor_pos == pre.filter@.len() ==> post.filter == pre.filter && post.matcher
        == pre.matcher)
    &&& (pre.cursor_pos < pre.filter@.len() ==> {
        &&& post.filter@ == pre.filter@.remove(pre.cursor_pos as int)
        &&& matcher_pattern(post.matcher) == post.filter@
        &&& matcher_append_hint(post.matcher) == pre.filter@.is_prefix_of(post.filter@)
    })
}

/// The delete-word transition: the trailing run of spaces and then the
/// trailing run of non-spaces before the cursor are erased.
pub open spec fn delete_word_effect(pre: Picker, post: Picker) -> bool {
    let len = word_del_len(pre.filter@, pre.cursor_pos as int);
    &&& picker_frame(pre, post)
    &&& matcher_items(post.matcher) == matcher_items(pre.matcher)
    &&& post.selection == pre.selection
    &&& post.cursor_pos == pre.cursor_pos - len
    &&& post.filter@ == pre.filter@.take(pre.cursor_pos - len) + pre.filter@.skip(
        pre.cursor_pos as int,
    )
    &&& (len > 0 ==> matcher_pattern(post.matcher) == post.filter@ && matcher_append_hint(
        post.matcher,
    ) == pre.filter@.is_prefix_of(post.filter@))
    &&& (len == 0 ==> post.matcher == pre.matcher && post.filter == pre.filter)
}

/// The delete-to-line transition: everything from the cursor to the end
/// (`forward`) or from the start to the cursor goes; a cut that removes
/// nothing does not reparse.
pub open spec fn delete_to_line_effect(pre: Picker, post: Picker, forward: bool) -> bool {
    &&& picker_frame(pre, post)
    &&& matcher_items(post.matcher) == matcher_items(pre.matcher)
    &&& post.selection == pre.selection
    &&& (forward ==> {
        &&& post.filter@ == pre.filter@.take(pre.cursor_pos as int)
        &&& post.cursor_pos == pre.cursor_pos
        &&& (pre.cursor_pos < pre.filter@.len() ==> matcher_pattern(post.matcher)
            == post.filter@ && matcher_append_hint(post.matcher) == pre.filter@.is_prefix_of(
            post.filter@,
        ))
        &&& (pre.cursor_pos == pre.filter@.len() ==> post.matcher == pre.matcher)
    })
    &&& (!forward ==> {
        &&& post.filter@ == pre.filter@.skip(pre.cursor_pos as int)
        &&& post.cursor_pos == 0
        &&& (pre.cursor_pos > 0 ==> matcher_pattern(post.matcher) == post.filter@
            && matcher_append_hint(post.matcher) == pre.filter@.is_prefix_of(post.filter@))
        &&& (pre.cursor_pos == 0 ==> post.matcher == pre.matcher)
    })
}

/// The physically-upward navigation step, inverted at the input-position
/// layer so the highlight moves visually up.
pub open spec fn move_up_effect(pre: Picker, post: Picker) -> bool {
    &&& picker_frame(pre, post)
    &&& post.matcher == pre.matcher
    &&& post.filter == pre.filter
    &&& post.cursor_pos == pre.cursor_pos
    &&& post.selection == if pre.input_position == InputPosition::Bottom {
        sel_step_up(pre.selection, matched_of(pre.matcher).len() as int)
    } else {
        sel_step_down(pre.selection, matched_of(pre.matcher).len() as int)
    }
}

/// The physically-downward navigation step; see `move_up_effect`.
pub open spec fn move_down_effect(pre: Picker, post: Picker) -> bool {
    &&& picker_frame(pre, post)
    &&& post.matcher == pre.matcher
    &&& post.filter == pre.filter
    &&& post.cursor_pos == pre.cursor_pos
    &&& post.selection == if pre.input_position == InputPosition::Bottom {
        sel_step_down(pre.selection, matched_of(pre.matcher).len() as int)
    } else {
        sel_step_up(pre.selection, matched_of(pre.matcher).len() as int)
    }
}

/// All picker fields but the cursor are unchanged.
pub open spec fn unchanged_but_cursor(pre: &Picker, post: &Picker) -> bool {
    &&& post.matcher == pre.matcher
    &&& post.filter == pre.filter
    &&& post.selection == pre.selection
    &&& post.keymap == pre.keymap
    &&& post.input_position == pre.input_position
    &&& post.preview == pre.preview
    &&& post.colors == pre.colors
}

/// A copy of a character vector.
fn clone_chars(v: &Vec<char>) -> (r: Vec<char>)
    ensures
        r@ == v@,
{
    let mut r: Vec<char> = Vec::new();
    let mut i: usize = 0;
    while i < v.len()
        invariant
            i <= v@.len(),
            r@ == v@.take(i as int),
        decreases v@.len() - i,
    {
        r.push(v[i]);
        i = i + 1;
        proof {
            assert(r@ =~= v@.take(i as int));
        }
    }
    proof {
        assert(v@.take(v@.len() as int) =~= v@);
    }
    r
}

// ---------------------------------------------------------------------------
// Delete-word arithmetic
// ---------------------------------------------------------------------------

/// The length of the run of spaces ending just before position `end`.
pub open spec fn space_run(s: Seq<char>, end: int) -> int
    decreases end,
{
    if end <= 0 || end > s.len() {
        0
    } else if s[end - 1] == ' ' {
        1 + space_run(s, end - 1)
    } else {
        0
    }
}

/// The length of the run of non-spaces ending just before position `end`.
pub open spec fn nonspace_run(s: Seq<char>, end: int) -> int
    decreases end,
{
    if end <= 0 || end > s.len() {
        0
    } else if s[end - 1] != ' ' {
        1 + nonspace_run(s, end - 1)
    } else {
        0
    }
}

/// How many characters delete-word erases: the trailing spaces, then the
/// trailing non-spaces, capped at the cursor.
pub open spec fn word_del_len(s: Seq<char>, cursor: int) -> int {
    let sp = space_run(s, cursor);
    let ns = nonspace_run(s, cursor - sp);
    if sp + ns > cursor {
        cursor
    } else {
        sp + ns
    }
}

/// The position of the first space at or after `j`, or the length when
/// there is none.
pub open spec fn space_pos(s: Seq<char>, j: int) -> int
    decreases s.len() - j,
{
    if j < 0 {
        space_pos(s, 0)
    } else if j >= s.len() {
        s.len() as int
    } else if s[j] == ' ' {
        j
    } else {
        space_pos(s, j + 1)
    }
}

/// A window entry's capture target: the label up to its first space, or
/// nothing when the label has no space.
pub open spec fn first_word_or_empty(s: Seq<char>) -> Seq<char> {
    if space_pos(s, 0) < s.len() {
        s.take(space_pos(s, 0))
    } else {
        Seq::empty()
    }
}

proof fn lemma_space_pos_from(s: Seq<char>, j: int, i: int)
    requires
        0 <= j <= i < s.len(),
        s[i] == ' ',
        forall|k: int| j <= k < i ==> s[k] != ' ',
    ensures
        space_pos(s, j) == i,
    decreases i - j,
{
    if j < i {
        lemma_space_pos_from(s, j + 1, i);
    }
}

proof fn lemma_space_pos_char(s: Seq<char>, i: int)
    requires
        0 <= i < s.len(),
        s[i] == ' ',
        forall|k: int| 0 <= k < i ==> s[k] != ' ',
    ensures
        space_pos(s, 0) == i,
{
    lemma_space_pos_from(s, 0, i);
}

proof fn lemma_space_pos_none_from(s: Seq<char>, j: int)
    requires
        0 <= j,
        forall|k: int| j <= k < s.len() ==> s[k] != ' ',
    ensures
        space_pos(s, j) == s.len(),
    decreases s.len() - j,
{
    if j < s.len() {
        lemma_space_pos_none_from(s, j + 1);
    }
}

proof fn lemma_space_pos_none(s: Seq<char>)
    requires
        forall|k: int| 0 <= k < s.len() ==> s[k] != ' ',
    ensures
        space_pos(s, 0) == s.len(),
{
    lemma_space_pos_none_from(s, 0);
}

/// A maximal run of spaces is exactly the space run.
proof fn lemma_space_run_char(s: Seq<char>, end: int, sp: int)
    requires
        0 <= sp <= end <= s.len(),
        forall|k: int| end - sp <= k < end ==> s[k] == ' ',
        sp == end || s[end - sp - 1] != ' ',
    ensures
        space_run(s, end) == sp,
    decreases sp,
{
    if sp == 0 {
        if end > 0 {
            assert(s[end - 1] != ' ');
        }
    } else {
        assert(s[end - 1] == ' ');
        lemma_space_run_char(s, end - 1, sp - 1);
    }
}

/// A maximal run of non-spaces is exactly the non-space run.
proof fn lemma_nonspace_run_char(s: Seq<char>, end: int, ns: int)
    requires
        0 <= ns <= end <= s.len(),
        forall|k: int| end - ns <= k < end ==> s[k] != ' ',
        ns == end || s[end - ns - 1] == ' ',
    ensures
        nonspace_run(s, end) == ns,
    decreases ns,
{
    if ns == 0 {
        if end > 0 {
            assert(s[end - 1] == ' ');
        }
    } else {
        assert(s[end - 1] != ' ');
        lemma_nonspace_run_char(s, end - 1, ns - 1);
    }
}

} // verus!
