//! Which prompt has the keyboard focus, and how the focus moves between
//! prompts in the order they were created.
use crate::keys::{ButtonInput, KeyCode};
use crate::Entity;
use vstd::prelude::*;

verus! {

/// A rudimentary focus: only tells whether an entity is focused.
#[derive(Debug, Clone, Copy, PartialEq, Eq)]
pub struct Focus {
    /// The focused entity, if any.
    pub focus: Option<Entity>,
}

impl Focus {
    /// Is entity focused?
    pub fn is_focused(&self, id: Entity) -> (r: bool)
        ensures
            r == (self.focus == Some(id)),
    {
        match self.focus {
            Some(f) => f == id,
            None => false,
        }
    }

    /// Focus on given entity.
    pub fn focus_on(&mut self, id: Entity)
        ensures
            final(self).focus == Some(id),
    {
        self.focus = Some(id);
    }
}

/// Turn on or off keyboard navigation for focus.
#[derive(Debug, Clone, Copy, PartialEq, Eq, Default)]
pub struct KeyboardNav(pub bool);

/// The four directions in which focus can move.
#[derive(Debug, Clone, Copy, PartialEq, Eq, Structural)]
pub enum CompassQuadrant {
    North,
    East,
    South,
    West,
}

/// Marker for an entity that can take the focus.
#[derive(Debug, Clone)]
pub struct Focusable {
    /// How many times this focusable was modified (for change detection).
    pub version: usize,
    /// Whether this entity refuses the focus.
    pub block: bool,
    /// Creation order ID, used for ordering focusable entities.
    pub created: usize,
}

impl Focusable {
    /// Whether this entity refuses the focus.
    pub open spec fn blocked(&self) -> bool {
        self.block
    }

    /// How many times this focusable was modified (for change detection).
    pub open spec fn changes(&self) -> usize {
        self.version
    }

    /// This focusable with its block flag set to `on`.
    pub open spec fn with_blocked(self, on: bool) -> Focusable {
        Focusable { block: on, ..self }
    }

    /// A focusable that is not blocked, created `created`-th.
    pub fn new(created: usize) -> (f: Self)
        ensures
            !f.blocked(),
            f.created == created,
            f.changes() == 0,
    {
        Focusable { version: 0, block: false, created }
    }

    /// Mark the focusable as modified.
    fn touch(&mut self)
        ensures
            final(self).blocked() == old(self).blocked(),
            final(self).created == old(self).created,
            final(self).changes() == (if old(self).changes() == usize::MAX {
                0
            } else {
                old(self).changes() + 1
            }),
    {
        self.version = self.version.wrapping_add(1);
    }
}

/// The entity that an operation on `id_maybe` applies to: `id_maybe`, or else
/// the focus.
pub open spec fn target_of(id_maybe: Option<Entity>, focus: Option<Entity>) -> Option<Entity> {
    if id_maybe is Some {
        id_maybe
    } else {
        focus
    }
}

/// The entries after setting the block flag of the target's first entry to
/// `on`; unchanged when there is no target or it has no entry.
pub open spec fn with_block(
    s: Seq<(Entity, Focusable)>,
    id_maybe: Option<Entity>,
    focus: Option<Entity>,
    on: bool,
) -> Seq<(Entity, Focusable)> {
    match target_of(id_maybe, focus) {
        Some(id) => if exists|i: int| first_of(s, id, i) {
            let i = choose|i: int| first_of(s, id, i);
            s.update(i, (s[i].0, s[i].1.with_blocked(on)))
        } else {
            s
        },
        None => s,
    }
}

/// The entries after blocking the target.
pub open spec fn block_entries(
    s: Seq<(Entity, Focusable)>,
    id_maybe: Option<Entity>,
    focus: Option<Entity>,
) -> Seq<(Entity, Focusable)> {
    with_block(s, id_maybe, focus, true)
}

/// The entries after unblocking the target.
pub open spec fn unblock_entries(
    s: Seq<(Entity, Focusable)>,
    id_maybe: Option<Entity>,
    focus: Option<Entity>,
) -> Seq<(Entity, Focusable)> {
    with_block(s, id_maybe, focus, false)
}

/// Entry `i` is the first one that belongs to `id`.
pub open spec fn first_of(s: Seq<(Entity, Focusable)>, id: Entity, i: int) -> bool {
    &&& 0 <= i < s.len()
    &&& s[i].0 == id
    &&& forall|j: int| 0 <= j < i ==> s[j].0 != id
}

/// No entry belongs to `id`.
pub open spec fn absent(s: Seq<(Entity, Focusable)>, id: Entity) -> bool {
    forall|j: int| 0 <= j < s.len() ==> s[j].0 != id
}

/// Entry `i` may take the focus: it is not blocked, does not belong to `skip`,
/// and was created strictly between `lo` and `hi`.
pub open spec fn in_window(
    s: Seq<(Entity, Focusable)>,
    skip: Option<Entity>,
    lo: int,
    hi: int,
    i: int,
) -> bool {
    &&& 0 <= i < s.len()
    &&& !s[i].1.blocked()
    &&& skip != Some(s[i].0)
    &&& lo < s[i].1.created < hi
}

/// Entry `i` is the last of the latest-created entries in the window.
pub open spec fn last_max(
    s: Seq<(Entity, Focusable)>,
    skip: Option<Entity>,
    lo: int,
    hi: int,
    i: int,
) -> bool {
    &&& in_window(s, skip, lo, hi, i)
    &&& forall|j: int|
        #![trigger in_window(s, skip, lo, hi, j)]
        in_window(s, skip, lo, hi, j) ==> s[j].1.created < s[i].1.created || (s[j].1.created
            == s[i].1.created && j <= i)
}

/// Entry `i` is the first of the earliest-created entries in the window.
pub open spec fn first_min(
    s: Seq<(Entity, Focusable)>,
    skip: Option<Entity>,
    lo: int,
    hi: int,
    i: int,
) -> bool {
    &&& in_window(s, skip, lo, hi, i)
    &&& forall|j: int|
        #![trigger in_window(s, skip, lo, hi, j)]
        in_window(s, skip, lo, hi, j) ==> s[j].1.created > s[i].1.created || (s[j].1.created
            == s[i].1.created && j >= i)
}

/// The entity of the last latest-created entry in the window, if any.
pub open spec fn pick_last_max(
    s: Seq<(Entity, Focusable)>,
    skip: Option<Entity>,
    lo: int,
    hi: int,
) -> Option<Entity> {
    if exists|i: int| last_max(s, skip, lo, hi, i) {
        Some(s[choose|i: int| last_max(s, skip, lo, hi, i)].0)
    } else {
        None
    }
}

/// The entity of the first earliest-created entry in the window, if any.
pub open spec fn pick_first_min(
    s: Seq<(Entity, Focusable)>,
    skip: Option<Entity>,
    lo: int,
    hi: int,
) -> Option<Entity> {
    if exists|i: int| first_min(s, skip, lo, hi, i) {
        Some(s[choose|i: int| first_min(s, skip, lo, hi, i)].0)
    } else {
        None
    }
}

/// Above every creation order.
pub open spec fn unbounded() -> int {
    usize::MAX as int + 1
}

/// The creation order of the first entry of `id`, or -1 when there is none.
pub open spec fn created_of(s: Seq<(Entity, Focusable)>, id: Entity) -> int {
    if exists|i: int| first_of(s, id, i) {
        s[choose|i: int| first_of(s, id, i)].1.created as int
    } else {
        -1
    }
}

/// Where the focus goes when it moves away from `id_maybe` (or from the
/// current focus): to the earliest-created unblocked entry created after it,
/// wrapping around to the earliest-created one; `None` when no entry can
/// take the focus.
pub open spec fn focus_after_move_from(
    s: Seq<(Entity, Focusable)>,
    id_maybe: Option<Entity>,
    focus: Option<Entity>,
) -> Option<Entity> {
    match target_of(id_maybe, focus) {
        Some(f) => {
            let next = pick_first_min(s, Some(f), created_of(s, f), unbounded());
            if next is Some {
                next
            } else {
                pick_first_min(s, Some(f), -1, unbounded())
            }
        },
        None => pick_first_min(s, None, -1, unbounded()),
    }
}

/// Where the focus goes when it moves in direction `dir`: North and West go
/// to the latest entry created before the focused one, South and East to the
/// earliest created after it, wrapping around; the focus stays when no other
/// entry can take it. Without a focused entry, it moves as
/// [focus_after_move_from] does.
pub open spec fn focus_after_move(
    s: Seq<(Entity, Focusable)>,
    focus: Option<Entity>,
    dir: CompassQuadrant,
) -> Option<Entity> {
    match focus {
        Some(c) => if exists|i: int| first_of(s, c, i) {
            let oc = created_of(s, c);
            let (near, wrap) = match dir {
                CompassQuadrant::North | CompassQuadrant::West => (
                    pick_last_max(s, Some(c), -1, oc),
                    pick_last_max(s, Some(c), -1, unbounded()),
                ),
                CompassQuadrant::South | CompassQuadrant::East => (
                    pick_first_min(s, Some(c), oc, unbounded()),
                    pick_first_min(s, Some(c), -1, unbounded()),
                ),
            };
            if near is Some {
                near
            } else if wrap is Some {
                wrap
            } else {
                focus
            }
        } else {
            focus_after_move_from(s, None, focus)
        },
        None => focus_after_move_from(s, None, focus),
    }
}

/// Whether `id` refuses the focus: it is blocked, or it is not focusable at all.
pub open spec fn is_blocked_spec(s: Seq<(Entity, Focusable)>, id: Entity) -> bool {
    if exists|i: int| first_of(s, id, i) {
        s[choose|i: int| first_of(s, id, i)].1.blocked()
    } else {
        true
    }
}

proof fn lemma_first_of_unique(s: Seq<(Entity, Focusable)>, id: Entity, i: int, j: int)
    requires
        first_of(s, id, i),
        first_of(s, id, j),
    ensures
        i == j,
{
}

proof fn lemma_last_max_unique(
    s: Seq<(Entity, Focusable)>,
    skip: Option<Entity>,
    lo: int,
    hi: int,
    i: int,
    j: int,
)
    requires
        last_max(s, skip, lo, hi, i),
        last_max(s, skip, lo, hi, j),
    ensures
        i == j,
{
    assert(in_window(s, skip, lo, hi, j));
    assert(in_window(s, skip, lo, hi, i));
}

proof fn lemma_first_min_unique(
    s: Seq<(Entity, Focusable)>,
    skip: Option<Entity>,
    lo: int,
    hi: int,
    i: int,
    j: int,
)
    requires
        first_min(s, skip, lo, hi, i),
        first_min(s, skip, lo, hi, j),
    ensures
        i == j,
{
    assert(in_window(s, skip, lo, hi, j));
    assert(in_window(s, skip, lo, hi, i));
}

/// The lower end of a window, -1 when open.
pub open spec fn low(lo: Option<usize>) -> int {
    match lo {
        Some(x) => x as int,
        None => -1,
    }
}

/// The upper end of a window, above everything when open.
pub open spec fn high(hi: Option<usize>) -> int {
    match hi {
        Some(x) => x as int,
        None => unbounded(),
    }
}

fn in_window_exec(
    s: &Vec<(Entity, Focusable)>,
    skip: Option<Entity>,
    lo: Option<usize>,
    hi: Option<usize>,
    i: usize,
) -> (r: bool)
    requires
        i < s.len(),
    ensures
        r == in_window(s@, skip, low(lo), high(hi), i as int),
{
    let e = &s[i];
    let not_skipped = match skip {
        Some(k) => e.0 != k,
        None => true,
    };
    let above = match lo {
        Some(l) => e.1.created > l,
        None => true,
    };
    let below = match hi {
        Some(h) => e.1.created < h,
        None => true,
    };
    !e.1.block && not_skipped && above && below
}

/// The index of the last latest-created entry in the window.
fn last_max_index(
    s: &Vec<(Entity, Focusable)>,
    skip: Option<Entity>,
    lo: Option<usize>,
    hi: Option<usize>,
) -> (r: Option<usize>)
    ensures
        r matches Some(i) ==> last_max(s@, skip, low(lo), high(hi), i as int),
        r is None ==> forall|i: int| !in_window(s@, skip, low(lo), high(hi), i),
        r matches Some(i) ==> pick_last_max(s@, skip, low(lo), high(hi)) == Some(s@[i as int].0),
        r is None ==> pick_last_max(s@, skip, low(lo), high(hi)) is None,
{
    let ghost (l, h) = (low(lo), high(hi));
    let mut best: Option<usize> = None;
    let mut i: usize = 0;
    while i < s.len()
        invariant
            i <= s.len(),
            best matches Some(b) ==> {
                &&& b < i
                &&& in_window(s@, skip, l, h, b as int)
                &&& forall|j: int|
                    #![trigger in_window(s@, skip, l, h, j)]
                    0 <= j < i && in_window(s@, skip, l, h, j) ==> s@[j].1.created
                        < s@[b as int].1.created || (s@[j].1.created == s@[b as int].1.created
                        && j <= b)
            },
            best is None ==> forall|j: int| 0 <= j < i ==> !in_window(s@, skip, l, h, j),
            l == low(lo),
            h == high(hi),
        decreases s.len() - i,
    {
        if in_window_exec(s, skip, lo, hi, i) {
            match best {
                None => {
                    best = Some(i);
                },
                Some(b) => {
                    if s[i].1.created >= s[b].1.created {
                        best = Some(i);
                    }
                },
            }
        }
        i = i + 1;
    }
    proof {
        match best {
            Some(b) => {
                assert(last_max(s@, skip, l, h, b as int));
                let c = choose|i: int| last_max(s@, skip, l, h, i);
                lemma_last_max_unique(s@, skip, l, h, b as int, c);
            },
            None => {
                if exists|i: int| last_max(s@, skip, l, h, i) {
                    let c = choose|i: int| last_max(s@, skip, l, h, i);
                    assert(in_window(s@, skip, l, h, c));
                }
            },
        }
    }
    best
}

/// The index of the first earliest-created entry in the window.
fn first_min_index(
    s: &Vec<(Entity, Focusable)>,
    skip: Option<Entity>,
    lo: Option<usize>,
    hi: Option<usize>,
) -> (r: Option<usize>)
    ensures
        r matches Some(i) ==> first_min(s@, skip, low(lo), high(hi), i as int),
        r is None ==> forall|i: int| !in_window(s@, skip, low(lo), high(hi), i),
        r matches Some(i) ==> pick_first_min(s@, skip, low(lo), high(hi)) == Some(s@[i as int].0),
        r is None ==> pick_first_min(s@, skip, low(lo), high(hi)) is None,
{
    let ghost (l, h) = (low(lo), high(hi));
    let mut best: Option<usize> = None;
    let mut i: usize = 0;
    while i < s.len()
        invariant
            i <= s.len(),
            best matches Some(b) ==> {
                &&& b < i
                &&& in_window(s@, skip, l, h, b as int)
                &&& forall|j: int|
                    #![trigger in_window(s@, skip, l, h, j)]
                    0 <= j < i && in_window(s@, skip, l, h, j) ==> s@[j].1.created
                        > s@[b as int].1.created || (s@[j].1.created == s@[b as int].1.created
                        && j >= b)
            },
            best is None ==> forall|j: int| 0 <= j < i ==> !in_window(s@, skip, l, h, j),
            l == low(lo),
            h == high(hi),
        decreases s.len() - i,
    {
        if in_window_exec(s, skip, lo, hi, i) {
            match best {
                None => {
                    best = Some(i);
                },
                Some(b) => {
                    if s[i].1.created < s[b].1.created {
                        best = Some(i);
                    }
                },
            }
        }
        i = i + 1;
    }
    proof {
        match best {
            Some(b) => {
                assert(first_min(s@, skip, l, h, b as int));
                let c = choose|i: int| first_min(s@, skip, l, h, i);
                lemma_first_min_unique(s@, skip, l, h, b as int, c);
            },
            None => {
                if exists|i: int| first_min(s@, skip, l, h, i) {
                    let c = choose|i: int| first_min(s@, skip, l, h, i);
                    assert(in_window(s@, skip, l, h, c));
                }
            },
        }
    }
    best
}

/// The index of the first entry of `id`.
fn find(s: &Vec<(Entity, Focusable)>, id: Entity) -> (r: Option<usize>)
    ensures
        r matches Some(i) ==> first_of(s@, id, i as int),
        r is None ==> absent(s@, id),
        r matches Some(i) ==> created_of(s@, id) == s@[i as int].1.created,
        r is None ==> created_of(s@, id) == -1,
        r matches Some(i) ==> is_blocked_spec(s@, id) == s@[i as int].1.blocked(),
        r is None ==> is_blocked_spec(s@, id),
{
    let mut i: usize = 0;
    while i < s.len()
        invariant
            i <= s.len(),
            forall|j: int| 0 <= j < i ==> s@[j].0 != id,
        decreases s.len() - i,
    {
        if s[i].0 == id {
            proof {
                assert(first_of(s@, id, i as int));
                let c = choose|k: int| first_of(s@, id, k);
                lemma_first_of_unique(s@, id, i as int, c);
            }
            return Some(i);
        }
        i = i + 1;
    }
    None
}

/// The focus together with all focusable entities, in query order.
pub struct FocusParam {
    /// Every focusable entity with its focusable state.
    pub entries: Vec<(Entity, Focusable)>,
    /// The focused entity, if any.
    pub focus: Option<Entity>,
    /// Whether arrow keys move the focus.
    pub keyboard_nav: bool,
}

impl FocusParam {
    fn current_focus(&self) -> (r: Option<Entity>)
        ensures
            r == self.focus,
    {
        self.focus
    }

    fn set_focus(&mut self, id: Option<Entity>)
        ensures
            final(self).focus == id,
            final(self).entries@ == old(self).entries@,
            final(self).keyboard_nav == old(self).keyboard_nav,
    {
        self.focus = id;
    }

    /// Is entity focused?
    pub fn is_focused(&self, id: Entity) -> (r: bool)
        ensures
            r == (self.focus == Some(id)),
    {
        match self.focus {
            Some(f) => f == id,
            None => false,
        }
    }

    /// Move the focus in a direction if possible, in creation order:
    /// North and West go to the previous entity, South and East to the next.
    pub fn move_focus(&mut self, dir: CompassQuadrant)
        ensures
            final(self).focus == focus_after_move(old(self).entries@, old(self).focus, dir),
            final(self).entries@ == old(self).entries@,
            final(self).keyboard_nav == old(self).keyboard_nav,
    {
        let current_focus = match self.current_focus() {
            Some(c) => c,
            None => {
                self.move_focus_from(None);
                return;
            },
        };
        let old_created = match find(&self.entries, current_focus) {
            Some(i) => self.entries[i].1.created,
            None => {
                self.move_focus_from(None);
                return;
            },
        };
        let backward = match dir {
            CompassQuadrant::North | CompassQuadrant::West => true,
            CompassQuadrant::South | CompassQuadrant::East => false,
        };
        let near = if backward {
            last_max_index(&self.entries, Some(current_focus), None, Some(old_created))
        } else {
            first_min_index(&self.entries, Some(current_focus), Some(old_created), None)
        };
        let result = match near {
            Some(i) => Some(i),
            None => if backward {
                last_max_index(&self.entries, Some(current_focus), None, None)
            } else {
                first_min_index(&self.entries, Some(current_focus), None, None)
            },
        };
        if let Some(i) = result {
            let id = self.entries[i].0;
            self.move_focus_to(id);
        }
    }

    /// Move focus to an entity.
    pub fn move_focus_to(&mut self, id: Entity)
        ensures
            final(self).focus == Some(id),
            final(self).entries@ == old(self).entries@,
            final(self).keyboard_nav == old(self).keyboard_nav,
    {
        self.set_focus(Some(id));
    }

    /// Move focus away from `id_maybe`, or from the current focus: to the
    /// next unblocked entity in creation order, wrapping around.
    pub fn move_focus_from(&mut self, id_maybe: Option<Entity>)
        ensures
            final(self).focus == focus_after_move_from(old(self).entries@, id_maybe, old(self).focus),
            final(self).entries@ == old(self).entries@,
            final(self).keyboard_nav == old(self).keyboard_nav,
    {
        let from = match id_maybe {
            Some(id) => Some(id),
            None => self.current_focus(),
        };
        match from {
            Some(focus_id) => {
                let lo = match find(&self.entries, focus_id) {
                    Some(i) => Some(self.entries[i].1.created),
                    None => None,
                };
                let next = match first_min_index(&self.entries, Some(focus_id), lo, None) {
                    Some(i) => Some(i),
                    None => first_min_index(&self.entries, Some(focus_id), None, None),
                };
                let result = match next {
                    Some(i) => Some(self.entries[i].0),
                    None => None,
                };
                self.set_focus(result);
            },
            None => {
                let first = first_min_index(&self.entries, None, None, None);
                let result = match first {
                    Some(i) => Some(self.entries[i].0),
                    None => None,
                };
                self.set_focus(result);
            },
        }
    }

    /// Is keyboard navigation on?
    pub fn keyboard_nav(&self) -> (r: bool)
        ensures
            r == self.keyboard_nav,
    {
        self.keyboard_nav
    }

    /// Set keyboard navigation.
    pub fn set_keyboard_nav(&mut self, on: bool)
        ensures
            final(self).keyboard_nav == on,
            final(self).entries@ == old(self).entries@,
            final(self).focus == old(self).focus,
    {
        self.keyboard_nav = on;
    }

    /// Block focus on `id_maybe` (or on the current focus), then move the
    /// focus away from it.
    pub fn block_and_move(&mut self, id_maybe: Option<Entity>)
        ensures
            final(self).entries@ == block_entries(old(self).entries@, id_maybe, old(self).focus),
            final(self).focus == focus_after_move_from(
                block_entries(old(self).entries@, id_maybe, old(self).focus),
                id_maybe,
                old(self).focus,
            ),
            final(self).keyboard_nav == old(self).keyboard_nav,
    {
        self.block(id_maybe);
        self.move_focus_from(id_maybe);
    }

    /// Is entity blocked? An entity that is not focusable counts as blocked.
    pub fn is_blocked(&self, id: Entity) -> (r: bool)
        ensures
            r == is_blocked_spec(self.entries@, id),
    {
        match find(&self.entries, id) {
            Some(i) => self.entries[i].1.block,
            None => true,
        }
    }

    /// Block focus on the current or given entity.
    pub fn block(&mut self, id_maybe: Option<Entity>)
        ensures
            final(self).entries@ == block_entries(old(self).entries@, id_maybe, old(self).focus),
            final(self).focus == old(self).focus,
            final(self).keyboard_nav == old(self).keyboard_nav,
    {
        self.set_block(id_maybe, true);
    }

    /// Unblock focus on the current or given entity.
    pub fn unblock(&mut self, id_maybe: Option<Entity>)
        ensures
            final(self).entries@ == unblock_entries(old(self).entries@, id_maybe, old(self).focus),
            final(self).focus == old(self).focus,
            final(self).keyboard_nav == old(self).keyboard_nav,
    {
        self.set_block(id_maybe, false);
    }

    fn set_block(&mut self, id_maybe: Option<Entity>, on: bool)
        ensures
            final(self).entries@ == with_block(old(self).entries@, id_maybe, old(self).focus, on),
            final(self).focus == old(self).focus,
            final(self).keyboard_nav == old(self).keyboard_nav,
    {
        let target = match id_maybe {
            Some(id) => Some(id),
            None => self.current_focus(),
        };
        if let Some(id) = target {
            if let Some(i) = find(&self.entries, id) {
                let e = self.entries[i].0;
                let f = Focusable {
                    version: self.entries[i].1.version,
                    block: on,
                    created: self.entries[i].1.created,
                };
                self.entries.set(i, (e, f));
                assert(f == old(self).entries@[i as int].1.with_blocked(on));
                proof {
                    let c = choose|k: int| first_of(old(self).entries@, id, k);
                    lemma_first_of_unique(old(self).entries@, id, i as int, c);
                }
            }
        }
    }
}

/// The direction that the arrow keys just pressed ask for: Up, then Down,
/// then Left, then Right take precedence in that order.
pub open spec fn arrow_direction(pressed: Seq<KeyCode>) -> Option<CompassQuadrant> {
    if pressed.contains(KeyCode::ArrowUp) {
        Some(CompassQuadrant::North)
    } else if pressed.contains(KeyCode::ArrowDown) {
        Some(CompassQuadrant::South)
    } else if pressed.contains(KeyCode::ArrowLeft) {
        Some(CompassQuadrant::West)
    } else if pressed.contains(KeyCode::ArrowRight) {
        Some(CompassQuadrant::East)
    } else {
        None
    }
}

/// Move the focus with the arrow keys when keyboard navigation is on.
pub fn focus_keys(input: &ButtonInput, focus: &mut FocusParam)
    ensures
        final(focus).entries@ == old(focus).entries@,
        final(focus).keyboard_nav == old(focus).keyboard_nav,
        final(focus).focus == (match arrow_direction(input.pressed@) {
            Some(dir) => if old(focus).keyboard_nav {
                focus_after_move(old(focus).entries@, old(focus).focus, dir)
            } else {
                old(focus).focus
            },
            None => old(focus).focus,
        }),
{
    if !focus.keyboard_nav() || !input.any_just_pressed(
        &[KeyCode::ArrowUp, KeyCode::ArrowDown, KeyCode::ArrowLeft, KeyCode::ArrowRight],
    ) {
        proof {
            if arrow_direction(input.pressed@) is Some && focus.keyboard_nav {
                let arrows = seq![
                    KeyCode::ArrowUp,
                    KeyCode::ArrowDown,
                    KeyCode::ArrowLeft,
                    KeyCode::ArrowRight,
                ];
                assert(arrows[0] == KeyCode::ArrowUp);
                assert(arrows[1] == KeyCode::ArrowDown);
                assert(arrows[2] == KeyCode::ArrowLeft);
                assert(arrows[3] == KeyCode::ArrowRight);
                assert(arrows.contains(KeyCode::ArrowUp));
                assert(arrows.contains(KeyCode::ArrowDown));
                assert(arrows.contains(KeyCode::ArrowLeft));
                assert(arrows.contains(KeyCode::ArrowRight));
            }
        }
        return;
    }
    if input.just_pressed(KeyCode::ArrowUp) {
        focus.move_focus(CompassQuadrant::North);
    } else if input.just_pressed(KeyCode::ArrowDown) {
        focus.move_focus(CompassQuadrant::South);
    } else if input.just_pressed(KeyCode::ArrowLeft) {
        focus.move_focus(CompassQuadrant::West);
    } else if input.just_pressed(KeyCode::ArrowRight) {
        focus.move_focus(CompassQuadrant::East);
    }
}

/// Move the focus on, away from the focused entity, when Tab was just pressed.
pub fn focus_on_tab(input: &ButtonInput, focus: &mut FocusParam)
    ensures
        final(focus).entries@ == old(focus).entries@,
        final(focus).keyboard_nav == old(focus).keyboard_nav,
        final(focus).focus == (if input.pressed@.contains(KeyCode::Tab) {
            focus_after_move_from(old(focus).entries@, None, old(focus).focus)
        } else {
            old(focus).focus
        }),
{
    if input.just_pressed(KeyCode::Tab) {
        focus.move_focus_from(None);
    }
}

/// Reset focus if there is none or the focused entity is blocked.
pub fn reset_focus(focus: &mut FocusParam)
    ensures
        final(focus).entries@ == old(focus).entries@,
        final(focus).keyboard_nav == old(focus).keyboard_nav,
        final(focus).focus == (match old(focus).focus {
            None => focus_after_move_from(old(focus).entries@, None, None),
            Some(id) => if is_blocked_spec(old(focus).entries@, id) {
                focus_after_move_from(old(focus).entries@, None, old(focus).focus)
            } else {
                old(focus).focus
            },
        }),
{
    match focus.current_focus() {
        None => focus.move_focus_from(None),
        Some(id) => {
            if focus.is_blocked(id) {
                focus.move_focus_from(None)
            }
        },
    }
}

/// The entries after marking the first entry of `id` as modified.
pub open spec fn touched(s: Seq<(Entity, Focusable)>, id: Option<Entity>) -> Seq<(Entity, Focusable)> {
    match id {
        Some(id) => if exists|i: int| first_of(s, id, i) {
            let i = choose|i: int| first_of(s, id, i);
            let f = s[i].1;
            s.update(
                i,
                (
                    s[i].0,
                    Focusable {
                        version: if f.version == usize::MAX {
                            0
                        } else {
                            (f.version + 1) as usize
                        },
                        ..f
                    },
                ),
            )
        } else {
            s
        },
        None => s,
    }
}

fn touch_entry(s: &mut Vec<(Entity, Focusable)>, id: Option<Entity>)
    ensures
        final(s)@ == touched(old(s)@, id),
{
    if let Some(id) = id {
        if let Some(i) = find(s, id) {
            let e = s[i].0;
            let mut f = Focusable { version: s[i].1.version, block: s[i].1.block, created: s[i].1.created };
            f.touch();
            s.set(i, (e, f));
            proof {
                let c = choose|k: int| first_of(old(s)@, id, k);
                lemma_first_of_unique(old(s)@, id, i as int, c);
            }
        }
    }
}

/// When the focus changed since the last call, mark the previously and the
/// newly focused entities as modified so that their views are redrawn.
pub fn sync_focus_to_focusable(
    current_focus: Option<Entity>,
    focusables: &mut Vec<(Entity, Focusable)>,
    last_focus: &mut Option<Entity>,
)
    ensures
        *final(last_focus) == current_focus,
        final(focusables)@ == (if *old(last_focus) != current_focus {
            touched(touched(old(focusables)@, *old(last_focus)), current_focus)
        } else {
            old(focusables)@
        }),
{
    if *last_focus != current_focus {
        touch_entry(focusables, *last_focus);
        touch_entry(focusables, current_focus);
        *last_focus = current_focus;
    }
}

/// No two entries belong to the same entity.
pub open spec fn ids_distinct(s: Seq<(Entity, Focusable)>) -> bool {
    forall|i: int, j: int| 0 <= i < s.len() && 0 <= j < s.len() && i != j ==> s[i].0 != s[j].0
}

/// No two entries were created at the same time.
pub open spec fn created_distinct(s: Seq<(Entity, Focusable)>) -> bool {
    forall|i: int, j: int|
        0 <= i < s.len() && 0 <= j < s.len() && i != j ==> s[i].1.created != s[j].1.created
}

/// Some entry of `e` can take the focus.
pub open spec fn focusable_unblocked(s: Seq<(Entity, Focusable)>, e: Entity) -> bool {
    exists|i: int| 0 <= i < s.len() && s[i].0 == e && !s[i].1.blocked()
}

proof fn lemma_pick_first_min_unblocked(
    s: Seq<(Entity, Focusable)>,
    skip: Option<Entity>,
    lo: int,
    hi: int,
)
    ensures
        pick_first_min(s, skip, lo, hi) matches Some(e) ==> focusable_unblocked(s, e) && skip
            != Some(e),
{
    if exists|i: int| first_min(s, skip, lo, hi, i) {
        let i = choose|i: int| first_min(s, skip, lo, hi, i);
        assert(s[i].0 == s[i].0);
    }
}

proof fn lemma_pick_last_max_unblocked(
    s: Seq<(Entity, Focusable)>,
    skip: Option<Entity>,
    lo: int,
    hi: int,
)
    ensures
        pick_last_max(s, skip, lo, hi) matches Some(e) ==> focusable_unblocked(s, e) && skip
            != Some(e),
{
    if exists|i: int| last_max(s, skip, lo, hi, i) {
        let i = choose|i: int| last_max(s, skip, lo, hi, i);
        assert(s[i].0 == s[i].0);
    }
}

/// Moving the focus away from an entity lands on an unblocked entity other
/// than the one moved from; it clears the focus only when no other entity
/// can take it.
pub proof fn law_move_from_lands_unblocked(
    s: Seq<(Entity, Focusable)>,
    id_maybe: Option<Entity>,
    focus: Option<Entity>,
)
    ensures
        focus_after_move_from(s, id_maybe, focus) matches Some(e) ==> focusable_unblocked(s, e)
            && target_of(id_maybe, focus) != Some(e),
        focus_after_move_from(s, id_maybe, focus) is None ==> forall|i: int|
            0 <= i < s.len() && !s[i].1.blocked() ==> target_of(id_maybe, focus) == Some(
                s[i].0,
            ),
{
    match target_of(id_maybe, focus) {
        Some(f) => {
            lemma_pick_first_min_unblocked(s, Some(f), created_of(s, f), unbounded());
            lemma_pick_first_min_unblocked(s, Some(f), -1, unbounded());
            assert forall|i: int| 0 <= i < s.len() && !s[i].1.blocked() && Some(f) != Some(s[i].0)
                implies pick_first_min(s, Some(f), -1, unbounded()) is Some by {
                assert(in_window(s, Some(f), -1, unbounded(), i));
                lemma_first_min_exists(s, Some(f), -1, unbounded(), i);
            }
        },
        None => {
            lemma_pick_first_min_unblocked(s, None, -1, unbounded());
            if pick_first_min(s, None, -1, unbounded()) is None {
                assert forall|i: int| 0 <= i < s.len() && !s[i].1.blocked() implies false by {
                    assert(in_window(s, None, -1, unbounded(), i));
                    lemma_first_min_exists(s, None, -1, unbounded(), i);
                }
            }
        },
    }
}

/// Moving the focus in a direction either leaves it where it was or puts it
/// on an unblocked entity other than the one that had it (or clears it, when
/// it was on an entity that cannot hold it and no other entity can).
pub proof fn law_move_lands_unblocked(s: Seq<(Entity, Focusable)>, focus: Option<Entity>, dir: CompassQuadrant)
    ensures
        focus_after_move(s, focus, dir) != focus ==> match focus_after_move(s, focus, dir) {
            Some(e) => focusable_unblocked(s, e) && focus != Some(e),
            None => true,
        },
{
    law_move_from_lands_unblocked(s, None, focus);
    if let Some(c) = focus {
        if exists|i: int| first_of(s, c, i) {
            let oc = created_of(s, c);
            lemma_pick_last_max_unblocked(s, Some(c), -1, oc);
            lemma_pick_last_max_unblocked(s, Some(c), -1, unbounded());
            lemma_pick_first_min_unblocked(s, Some(c), oc, unbounded());
            lemma_pick_first_min_unblocked(s, Some(c), -1, unbounded());
        }
    }
}

/// Among the first `n` entries, a window with an entry has a first
/// earliest-created one.
proof fn lemma_first_min_prefix(
    s: Seq<(Entity, Focusable)>,
    skip: Option<Entity>,
    lo: int,
    hi: int,
    n: int,
    k: int,
) -> (b: int)
    requires
        0 <= k < n <= s.len(),
        in_window(s, skip, lo, hi, k),
    ensures
        0 <= b < n,
        in_window(s, skip, lo, hi, b),
        forall|j: int|
            #![trigger in_window(s, skip, lo, hi, j)]
            0 <= j < n && in_window(s, skip, lo, hi, j) ==> s[j].1.created > s[b].1.created || (
            s[j].1.created == s[b].1.created && j >= b),
    decreases n,
{
    if k == n - 1 {
        if exists|j: int| 0 <= j < n - 1 && in_window(s, skip, lo, hi, j) {
            let j = choose|j: int| 0 <= j < n - 1 && in_window(s, skip, lo, hi, j);
            let b = lemma_first_min_prefix(s, skip, lo, hi, n - 1, j);
            if s[k].1.created < s[b].1.created {
                k
            } else {
                b
            }
        } else {
            k
        }
    } else {
        let b = lemma_first_min_prefix(s, skip, lo, hi, n - 1, k);
        if in_window(s, skip, lo, hi, n - 1) && s[n - 1].1.created < s[b].1.created {
            n - 1
        } else {
            b
        }
    }
}

/// A non-empty window has a first earliest-created entry.
proof fn lemma_first_min_exists(
    s: Seq<(Entity, Focusable)>,
    skip: Option<Entity>,
    lo: int,
    hi: int,
    k: int,
)
    requires
        in_window(s, skip, lo, hi, k),
    ensures
        exists|i: int| first_min(s, skip, lo, hi, i),
        pick_first_min(s, skip, lo, hi) is Some,
{
    let b = lemma_first_min_prefix(s, skip, lo, hi, s.len() as int, k);
    assert(first_min(s, skip, lo, hi, b));
}

/// After the focus is reset, it rests on an unblocked entity, unless no
/// entity can take it.
pub proof fn law_reset_focus_lands_unblocked(s: Seq<(Entity, Focusable)>, focus: Option<Entity>)
    requires
        ids_distinct(s),
    ensures
        ({
            let after = match focus {
                None => focus_after_move_from(s, None, None),
                Some(id) => if is_blocked_spec(s, id) {
                    focus_after_move_from(s, None, focus)
                } else {
                    focus
                },
            };
            &&& after matches Some(e) ==> focusable_unblocked(s, e)
            &&& after is None ==> forall|i: int| 0 <= i < s.len() ==> s[i].1.blocked()
        }),
{
    law_move_from_lands_unblocked(s, None, focus);
    match focus {
        None => {},
        Some(id) => {
            if is_blocked_spec(s, id) {
                assert forall|i: int| 0 <= i < s.len() && s[i].0 == id implies s[i].1.blocked() by {
                    assert(first_of(s, id, i));
                    let c = choose|k: int| first_of(s, id, k);
                    lemma_first_of_unique(s, id, i, c);
                }
            } else {
                let c = choose|k: int| first_of(s, id, k);
                assert(first_of(s, id, c));
            }
        },
    }
}

/// Blocking an entity that has an entry makes it blocked, and unblocking it
/// again gives back the entries from before when it was not blocked.
pub proof fn law_unblock_undoes_block(s: Seq<(Entity, Focusable)>, id: Entity, focus: Option<Entity>)
    requires
        exists|i: int| first_of(s, id, i),
        !is_blocked_spec(s, id),
    ensures
        is_blocked_spec(block_entries(s, Some(id), focus), id),
        unblock_entries(block_entries(s, Some(id), focus), Some(id), focus) == s,
{
    let i = choose|k: int| first_of(s, id, k);
    let b = block_entries(s, Some(id), focus);
    assert(target_of(Some(id), focus) == Some(id));
    assert(first_of(s, id, i));
    assert(b =~= s.update(i, (s[i].0, s[i].1.with_blocked(true))));
    assert(forall|j: int| 0 <= j < s.len() ==> b[j].0 == s[j].0);
    assert(first_of(b, id, i));
    let c = choose|k: int| first_of(b, id, k);
    lemma_first_of_unique(b, id, i, c);
    assert(b[i].1.with_blocked(false) == s[i].1);
    assert(b.update(i, (b[i].0, b[i].1.with_blocked(false))) =~= s);
}

/// Among the first `n` entries, a window with an entry has a last
/// latest-created one.
proof fn lemma_last_max_prefix(
    s: Seq<(Entity, Focusable)>,
    skip: Option<Entity>,
    lo: int,
    hi: int,
    n: int,
    k: int,
) -> (b: int)
    requires
        0 <= k < n <= s.len(),
        in_window(s, skip, lo, hi, k),
    ensures
        0 <= b < n,
        in_window(s, skip, lo, hi, b),
        forall|j: int|
            #![trigger in_window(s, skip, lo, hi, j)]
            0 <= j < n && in_window(s, skip, lo, hi, j) ==> s[j].1.created < s[b].1.created || (
            s[j].1.created == s[b].1.created && j <= b),
    decreases n,
{
    if k == n - 1 {
        if exists|j: int| 0 <= j < n - 1 && in_window(s, skip, lo, hi, j) {
            let j = choose|j: int| 0 <= j < n - 1 && in_window(s, skip, lo, hi, j);
            let b = lemma_last_max_prefix(s, skip, lo, hi, n - 1, j);
            if s[k].1.created >= s[b].1.created {
                k
            } else {
                b
            }
        } else {
            k
        }
    } else {
        let b = lemma_last_max_prefix(s, skip, lo, hi, n - 1, k);
        if in_window(s, skip, lo, hi, n - 1) && s[n - 1].1.created >= s[b].1.created {
            n - 1
        } else {
            b
        }
    }
}

/// A non-empty window has a last latest-created entry.
proof fn lemma_last_max_exists(
    s: Seq<(Entity, Focusable)>,
    skip: Option<Entity>,
    lo: int,
    hi: int,
    k: int,
)
    requires
        in_window(s, skip, lo, hi, k),
    ensures
        exists|i: int| last_max(s, skip, lo, hi, i),
        pick_last_max(s, skip, lo, hi) is Some,
{
    let b = lemma_last_max_prefix(s, skip, lo, hi, s.len() as int, k);
    assert(last_max(s, skip, lo, hi, b));
}

/// The focused entity `c` can take the focus, and so can some other entity.
pub open spec fn round_trip_ready(s: Seq<(Entity, Focusable)>, c: Entity) -> bool {
    &&& ids_distinct(s)
    &&& created_distinct(s)
    &&& exists|i: int| first_of(s, c, i)
    &&& !is_blocked_spec(s, c)
    &&& exists|i: int| 0 <= i < s.len() && !s[i].1.blocked() && s[i].0 != c
}

/// The directions that undo each other.
pub open spec fn opposite(there: CompassQuadrant, back: CompassQuadrant) -> bool {
    ||| there == CompassQuadrant::South && back == CompassQuadrant::North
    ||| there == CompassQuadrant::North && back == CompassQuadrant::South
    ||| there == CompassQuadrant::East && back == CompassQuadrant::West
    ||| there == CompassQuadrant::West && back == CompassQuadrant::East
}

proof fn lemma_forward_then_back(s: Seq<(Entity, Focusable)>, c: Entity)
    requires
        round_trip_ready(s, c),
    ensures
        focus_after_move(s, focus_after_move(s, Some(c), CompassQuadrant::South), CompassQuadrant::North)
            == Some(c),
{
    let ic = choose|k: int| #[trigger] first_of(s, c, k);
    let oc = created_of(s, c);
    assert(oc == s[ic].1.created);
    assert(!s[ic].1.blocked());
    if pick_first_min(s, Some(c), oc, unbounded()) is Some {
        let ie = choose|k: int| #[trigger] first_min(s, Some(c), oc, unbounded(), k);
        let e = s[ie].0;
        assert(focus_after_move(s, Some(c), CompassQuadrant::South) == Some(e));
        assert(first_of(s, e, ie));
        let ce = choose|k: int| #[trigger] first_of(s, e, k);
        lemma_first_of_unique(s, e, ie, ce);
        let oe = created_of(s, e);
        assert(oe == s[ie].1.created);
        // c is in the window before e, and nothing lies between them
        assert(in_window(s, Some(e), -1, oe, ic));
        assert(last_max(s, Some(e), -1, oe, ic)) by {
            assert forall|j: int| #![trigger in_window(s, Some(e), -1, oe, j)]
                in_window(s, Some(e), -1, oe, j) implies s[j].1.created < s[ic].1.created || (
                s[j].1.created == s[ic].1.created && j <= ic) by {
                if j != ic {
                    assert(s[j].0 != c);
                    if s[j].1.created > s[ic].1.created {
                        assert(in_window(s, Some(c), oc, unbounded(), j));
                    }
                }
            }
        }
        let pick = choose|k: int| #[trigger] last_max(s, Some(e), -1, oe, k);
        lemma_last_max_unique(s, Some(e), -1, oe, ic, pick);
    } else {
        // Nothing after c: every other entity that can take the focus came before it.
        assert forall|j: int| 0 <= j < s.len() && !s[j].1.blocked() && s[j].0 != c implies s[j].1.created
            < oc by {
            assert(j != ic);
            if s[j].1.created > oc {
                assert(in_window(s, Some(c), oc, unbounded(), j));
                lemma_first_min_exists(s, Some(c), oc, unbounded(), j);
            }
        }
        let io = choose|i: int| 0 <= i < s.len() && !s[i].1.blocked() && s[i].0 != c;
        assert(in_window(s, Some(c), -1, unbounded(), io));
        lemma_first_min_exists(s, Some(c), -1, unbounded(), io);
        let ie = choose|k: int| #[trigger] first_min(s, Some(c), -1, unbounded(), k);
        let e = s[ie].0;
        assert(focus_after_move(s, Some(c), CompassQuadrant::South) == Some(e));
        assert(first_of(s, e, ie));
        let ce = choose|k: int| #[trigger] first_of(s, e, k);
        lemma_first_of_unique(s, e, ie, ce);
        let oe = created_of(s, e);
        assert(oe == s[ie].1.created);
        assert(oe < oc);
        // Nothing came before e, so the move back wraps around to the latest, c.
        assert(!exists|k: int| #[trigger] last_max(s, Some(e), -1, oe, k)) by {
            if exists|k: int| #[trigger] last_max(s, Some(e), -1, oe, k) {
                let k = choose|k: int| #[trigger] last_max(s, Some(e), -1, oe, k);
                assert(in_window(s, Some(e), -1, oe, k));
                assert(k != ic);
                assert(in_window(s, Some(c), -1, unbounded(), k));
            }
        }
        assert(in_window(s, Some(e), -1, unbounded(), ic));
        assert(last_max(s, Some(e), -1, unbounded(), ic)) by {
            assert forall|j: int| #![trigger in_window(s, Some(e), -1, unbounded(), j)]
                in_window(s, Some(e), -1, unbounded(), j) implies s[j].1.created < s[ic].1.created || (
                s[j].1.created == s[ic].1.created && j <= ic) by {
                if j != ic {
                    assert(s[j].0 != c);
                }
            }
        }
        let pick = choose|k: int| #[trigger] last_max(s, Some(e), -1, unbounded(), k);
        lemma_last_max_unique(s, Some(e), -1, unbounded(), ic, pick);
    }
}

proof fn lemma_back_then_forward(s: Seq<(Entity, Focusable)>, c: Entity)
    requires
        round_trip_ready(s, c),
    ensures
        focus_after_move(s, focus_after_move(s, Some(c), CompassQuadrant::North), CompassQuadrant::South)
            == Some(c),
{
    let ic = choose|k: int| #[trigger] first_of(s, c, k);
    let oc = created_of(s, c);
    assert(oc == s[ic].1.created);
    assert(!s[ic].1.blocked());
    if pick_last_max(s, Some(c), -1, oc) is Some {
        let ie = choose|k: int| #[trigger] last_max(s, Some(c), -1, oc, k);
        let e = s[ie].0;
        assert(focus_after_move(s, Some(c), CompassQuadrant::North) == Some(e));
        assert(first_of(s, e, ie));
        let ce = choose|k: int| #[trigger] first_of(s, e, k);
        lemma_first_of_unique(s, e, ie, ce);
        let oe = created_of(s, e);
        assert(oe == s[ie].1.created);
        // c is in the window after e, and nothing lies between them
        assert(in_window(s, Some(e), oe, unbounded(), ic));
        assert(first_min(s, Some(e), oe, unbounded(), ic)) by {
            assert forall|j: int| #![trigger in_window(s, Some(e), oe, unbounded(), j)]
                in_window(s, Some(e), oe, unbounded(), j) implies s[j].1.created > s[ic].1.created || (
                s[j].1.created == s[ic].1.created && j >= ic) by {
                if j != ic {
                    assert(s[j].0 != c);
                    if s[j].1.created < s[ic].1.created {
                        assert(in_window(s, Some(c), -1, oc, j));
                    }
                }
            }
        }
        let pick = choose|k: int| #[trigger] first_min(s, Some(e), oe, unbounded(), k);
        lemma_first_min_unique(s, Some(e), oe, unbounded(), ic, pick);
    } else {
        // Nothing before c: every other entity that can take the focus came after it.
        assert forall|j: int| 0 <= j < s.len() && !s[j].1.blocked() && s[j].0 != c implies s[j].1.created
            > oc by {
            assert(j != ic);
            if s[j].1.created < oc {
                assert(in_window(s, Some(c), -1, oc, j));
                lemma_last_max_exists(s, Some(c), -1, oc, j);
            }
        }
        let io = choose|i: int| 0 <= i < s.len() && !s[i].1.blocked() && s[i].0 != c;
        assert(in_window(s, Some(c), -1, unbounded(), io));
        lemma_last_max_exists(s, Some(c), -1, unbounded(), io);
        let ie = choose|k: int| #[trigger] last_max(s, Some(c), -1, unbounded(), k);
        let e = s[ie].0;
        assert(focus_after_move(s, Some(c), CompassQuadrant::North) == Some(e));
        assert(first_of(s, e, ie));
        let ce = choose|k: int| #[trigger] first_of(s, e, k);
        lemma_first_of_unique(s, e, ie, ce);
        let oe = created_of(s, e);
        assert(oe == s[ie].1.created);
        assert(oe > oc);
        // Nothing came after e, so the move forward wraps around to the earliest, c.
        assert(!exists|k: int| #[trigger] first_min(s, Some(e), oe, unbounded(), k)) by {
            if exists|k: int| #[trigger] first_min(s, Some(e), oe, unbounded(), k) {
                let k = choose|k: int| #[trigger] first_min(s, Some(e), oe, unbounded(), k);
                assert(in_window(s, Some(e), oe, unbounded(), k));
                assert(k != ic);
                assert(in_window(s, Some(c), -1, unbounded(), k));
            }
        }
        assert(in_window(s, Some(e), -1, unbounded(), ic));
        assert(first_min(s, Some(e), -1, unbounded(), ic)) by {
            assert forall|j: int| #![trigger in_window(s, Some(e), -1, unbounded(), j)]
                in_window(s, Some(e), -1, unbounded(), j) implies s[j].1.created > s[ic].1.created || (
                s[j].1.created == s[ic].1.created && j >= ic) by {
                if j != ic {
                    assert(s[j].0 != c);
                }
            }
        }
        let pick = choose|k: int| #[trigger] first_min(s, Some(e), -1, unbounded(), k);
        lemma_first_min_unique(s, Some(e), -1, unbounded(), ic, pick);
    }
}

/// Moving the focus one way and then the opposite way brings it back to
/// where it was, on both axes and also when the first move wraps around,
/// provided the focused entity and at least one other can take the focus
/// and entities and creation orders are distinct.
pub proof fn law_move_round_trip(
    s: Seq<(Entity, Focusable)>,
    c: Entity,
    there: CompassQuadrant,
    back: CompassQuadrant,
)
    requires
        round_trip_ready(s, c),
        opposite(there, back),
    ensures
        focus_after_move(s, focus_after_move(s, Some(c), there), back) == Some(c),
{
    lemma_forward_then_back(s, c);
    lemma_back_then_forward(s, c);
    let f = focus_after_move(s, Some(c), there);
    assert(focus_after_move(s, Some(c), CompassQuadrant::East) == focus_after_move(
        s,
        Some(c),
        CompassQuadrant::South,
    ));
    assert(focus_after_move(s, Some(c), CompassQuadrant::West) == focus_after_move(
        s,
        Some(c),
        CompassQuadrant::North,
    ));
    assert(focus_after_move(s, f, CompassQuadrant::East) == focus_after_move(s, f, CompassQuadrant::South));
    assert(focus_after_move(s, f, CompassQuadrant::West) == focus_after_move(s, f, CompassQuadrant::North));
}

/// Pressing ArrowLeft (without ArrowUp or ArrowDown) asks for a move West, and
/// a move West from the focused entity `c` lands on the latest-created
/// unblocked entry made before `c`, when there is one.
pub proof fn law_arrow_left_goes_to_previous(s: Seq<(Entity, Focusable)>, c: Entity, pressed: Seq<KeyCode>)
    requires
        pressed.contains(KeyCode::ArrowLeft),
        !pressed.contains(KeyCode::ArrowUp),
        !pressed.contains(KeyCode::ArrowDown),
        exists|i: int| first_of(s, c, i),
        exists|j: int|
            0 <= j < s.len() && !s[j].1.blocked() && s[j].0 != c && s[j].1.created < created_of(s, c),
    ensures
        arrow_direction(pressed) == Some(CompassQuadrant::West),
        exists|k: int|
            {
                &&& 0 <= k < s.len()
                &&& !s[k].1.blocked()
                &&& s[k].0 != c
                &&& focus_after_move(s, Some(c), arrow_direction(pressed)->Some_0) == Some(s[k].0)
                &&& s[k].1.created < created_of(s, c)
                &&& forall|j: int|
                    0 <= j < s.len() && !s[j].1.blocked() && s[j].0 != c && s[j].1.created < created_of(
                        s,
                        c,
                    ) ==> s[j].1.created <= s[k].1.created
            },
{
    let oc = created_of(s, c);
    let j0 = choose|j: int|
        0 <= j < s.len() && !s[j].1.blocked() && s[j].0 != c && s[j].1.created < created_of(s, c);
    assert(in_window(s, Some(c), -1, oc, j0));
    lemma_last_max_exists(s, Some(c), -1, oc, j0);
    let k = choose|i: int| #[trigger] last_max(s, Some(c), -1, oc, i);
    assert forall|j: int|
        0 <= j < s.len() && !s[j].1.blocked() && s[j].0 != c && s[j].1.created < created_of(s, c)
        implies s[j].1.created <= s[k].1.created by {
        assert(in_window(s, Some(c), -1, oc, j));
    }
}

/// Pressing ArrowRight (without any other arrow key) asks for a move East, and
/// a move East from the focused entity `c` lands on the earliest-created
/// unblocked entry made after `c`, when there is one.
pub proof fn law_arrow_right_goes_to_next(s: Seq<(Entity, Focusable)>, c: Entity, pressed: Seq<KeyCode>)
    requires
        pressed.contains(KeyCode::ArrowRight),
        !pressed.contains(KeyCode::ArrowUp),
        !pressed.contains(KeyCode::ArrowDown),
        !pressed.contains(KeyCode::ArrowLeft),
        exists|i: int| first_of(s, c, i),
        exists|j: int|
            0 <= j < s.len() && !s[j].1.blocked() && s[j].0 != c && s[j].1.created > created_of(s, c),
    ensures
        arrow_direction(pressed) == Some(CompassQuadrant::East),
        exists|k: int|
            {
                &&& 0 <= k < s.len()
                &&& !s[k].1.blocked()
                &&& s[k].0 != c
                &&& focus_after_move(s, Some(c), arrow_direction(pressed)->Some_0) == Some(s[k].0)
                &&& s[k].1.created > created_of(s, c)
                &&& forall|j: int|
                    0 <= j < s.len() && !s[j].1.blocked() && s[j].0 != c && s[j].1.created > created_of(
                        s,
                        c,
                    ) ==> s[j].1.created >= s[k].1.created
            },
{
    let oc = created_of(s, c);
    let j0 = choose|j: int|
        0 <= j < s.len() && !s[j].1.blocked() && s[j].0 != c && s[j].1.created > created_of(s, c);
    assert(in_window(s, Some(c), oc, unbounded(), j0));
    lemma_first_min_exists(s, Some(c), oc, unbounded(), j0);
    let k = choose|i: int| #[trigger] first_min(s, Some(c), oc, unbounded(), i);
    assert forall|j: int|
        0 <= j < s.len() && !s[j].1.blocked() && s[j].0 != c && s[j].1.created > created_of(s, c)
        implies s[j].1.created >= s[k].1.created by {
        assert(in_window(s, Some(c), oc, unbounded(), j));
    }
}

/// ArrowUp asks for a move North and ArrowDown, without ArrowUp, for a move
/// South; no arrow key asks for nothing. North moves as West does (back in
/// creation order) and South as East does (on in creation order).
pub proof fn law_arrow_up_down(s: Seq<(Entity, Focusable)>, focus: Option<Entity>, pressed: Seq<KeyCode>)
    ensures
        pressed.contains(KeyCode::ArrowUp) ==> arrow_direction(pressed) == Some(CompassQuadrant::North),
        !pressed.contains(KeyCode::ArrowUp) && pressed.contains(KeyCode::ArrowDown) ==> arrow_direction(pressed)
            == Some(CompassQuadrant::South),
        !pressed.contains(KeyCode::ArrowUp) && !pressed.contains(KeyCode::ArrowDown) && !pressed.contains(
            KeyCode::ArrowLeft,
        ) && !pressed.contains(KeyCode::ArrowRight) ==> arrow_direction(pressed) is None,
        focus_after_move(s, focus, CompassQuadrant::North) == focus_after_move(s, focus, CompassQuadrant::West),
        focus_after_move(s, focus, CompassQuadrant::South) == focus_after_move(s, focus, CompassQuadrant::East),
{
}

/// Tab moves the focus from the focused entity `c` to the earliest-created
/// unblocked entry made after `c`, when there is one.
pub proof fn law_tab_goes_to_next(s: Seq<(Entity, Focusable)>, c: Entity)
    requires
        exists|j: int|
            0 <= j < s.len() && !s[j].1.blocked() && s[j].0 != c && s[j].1.created > created_of(s, c),
    ensures
        exists|k: int|
            {
                &&& 0 <= k < s.len()
                &&& !s[k].1.blocked()
                &&& s[k].0 != c
                &&& focus_after_move_from(s, None, Some(c)) == Some(s[k].0)
                &&& s[k].1.created > created_of(s, c)
                &&& forall|j: int|
                    0 <= j < s.len() && !s[j].1.blocked() && s[j].0 != c && s[j].1.created > created_of(
                        s,
                        c,
                    ) ==> s[j].1.created >= s[k].1.created
            },
{
    let oc = created_of(s, c);
    let j0 = choose|j: int|
        0 <= j < s.len() && !s[j].1.blocked() && s[j].0 != c && s[j].1.created > created_of(s, c);
    assert(in_window(s, Some(c), oc, unbounded(), j0));
    lemma_first_min_exists(s, Some(c), oc, unbounded(), j0);
    let k = choose|i: int| #[trigger] first_min(s, Some(c), oc, unbounded(), i);
    assert forall|j: int|
        0 <= j < s.len() && !s[j].1.blocked() && s[j].0 != c && s[j].1.created > created_of(s, c)
        implies s[j].1.created >= s[k].1.created by {
        assert(in_window(s, Some(c), oc, unbounded(), j));
    }
}

} // verus!
