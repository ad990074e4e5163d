//! A click is a press and release of a mouse button on the same UI element;
//! a press that leaves the element and releases elsewhere is no click.
use crate::Entity;
use vstd::prelude::*;

verus! {

/// The state of a button under the pointer.
#[derive(Debug, Clone, Copy, PartialEq, Eq, Structural)]
pub enum Interaction {
    /// Pressed
    Pressed,
    /// Hovered
    Hovered,
    /// Neither pressed nor hovered
    Idle,
}

/// A button clicks when it goes from pressed to hovered: the press was
/// released over it.
pub fn button_click(last: Option<Interaction>, now: Interaction) -> (click: bool)
    ensures
        click == (now == Interaction::Hovered && last == Some(Interaction::Pressed)),
{
    now == Interaction::Hovered && last == Some(Interaction::Pressed)
}

/// The interaction recorded for `id` among `entries`, if any.
pub open spec fn recorded(entries: Seq<(Entity, Interaction)>, id: Entity) -> Option<Interaction> {
    if exists|i: int| 0 <= i < entries.len() && (#[trigger] entries[i]).0 == id {
        Some(entries[choose|i: int| 0 <= i < entries.len() && (#[trigger] entries[i]).0 == id].1)
    } else {
        None
    }
}

/// The last interaction of each button that has had one.
#[derive(Debug, Clone, Default)]
pub struct ClickRecord {
    /// Each button with its last interaction, one entry per button.
    pub entries: Vec<(Entity, Interaction)>,
}

impl ClickRecord {
    /// One entry per button.
    pub open spec fn wf(&self) -> bool {
        forall|i: int, j: int|
            0 <= i < self.entries@.len() && 0 <= j < self.entries@.len() && i != j ==> (
            #[trigger] self.entries@[i]).0 != (#[trigger] self.entries@[j]).0
    }

    /// The last interaction recorded for `id`.
    pub open spec fn last(&self, id: Entity) -> Option<Interaction> {
        recorded(self.entries@, id)
    }

    /// No interaction recorded yet.
    pub fn new() -> (r: Self)
        ensures
            r.wf(),
            forall|id: Entity| r.last(id) is None,
    {
        ClickRecord { entries: Vec::new() }
    }

    /// The interaction of button `id` changed to `now`: record it, and say
    /// whether that made a click, as [button_click] decides from the
    /// interaction recorded before.
    pub fn interaction_changed(&mut self, id: Entity, now: Interaction) -> (click: bool)
        requires
            old(self).wf(),
        ensures
            final(self).wf(),
            final(self).last(id) == Some(now),
            forall|k: Entity| k != id ==> final(self).last(k) == old(self).last(k),
            click == (now == Interaction::Hovered && old(self).last(id) == Some(Interaction::Pressed)),
    {
        let ghost s = self.entries@;
        let mut i: usize = 0;
        while i < self.entries.len()
            invariant
                self.entries@ == s,
                old(self).entries@ == s,
                i <= s.len(),
                forall|a: int, b: int|
                    0 <= a < s.len() && 0 <= b < s.len() && a != b ==> (#[trigger] s[a]).0 != (
                    #[trigger] s[b]).0,
                forall|j: int| 0 <= j < i ==> (#[trigger] s[j]).0 != id,
            decreases s.len() - i,
        {
            if self.entries[i].0 == id {
                let last = self.entries[i].1;
                proof {
                    assert(s[i as int].0 == id);
                    let c = choose|j: int| 0 <= j < s.len() && (#[trigger] s[j]).0 == id;
                    assert(c == i as int);
                }
                let click = button_click(Some(last), now);
                self.entries.set(i, (id, now));
                proof {
                    let t = self.entries@;
                    assert forall|k: Entity| k != id implies recorded(t, k) == recorded(s, k) by {
                        if exists|j: int| 0 <= j < s.len() && (#[trigger] s[j]).0 == k {
                            let a = choose|j: int| 0 <= j < s.len() && (#[trigger] s[j]).0 == k;
                            assert(t[a].0 == k);
                            let b = choose|j: int| 0 <= j < t.len() && (#[trigger] t[j]).0 == k;
                            assert(s[b].0 == k || b == i);
                        } else {
                            assert forall|j: int| 0 <= j < t.len() implies (#[trigger] t[j]).0 != k by {
                                if j != i {
                                    assert(s[j].0 != k);
                                }
                            }
                        }
                    }
                    assert(t[i as int].0 == id);
                    let c = choose|j: int| 0 <= j < t.len() && (#[trigger] t[j]).0 == id;
                    assert(c == i as int);
                }
                return click;
            }
            i = i + 1;
        }
        self.entries.push((id, now));
        proof {
            let t = self.entries@;
            assert(t[s.len() as int].0 == id);
            let c = choose|j: int| 0 <= j < t.len() && (#[trigger] t[j]).0 == id;
            assert(c == s.len() as int);
            assert forall|k: Entity| k != id implies recorded(t, k) == recorded(s, k) by {
                if exists|j: int| 0 <= j < s.len() && (#[trigger] s[j]).0 == k {
                    let a = choose|j: int| 0 <= j < s.len() && (#[trigger] s[j]).0 == k;
                    assert(t[a].0 == k);
                } else {
                    assert forall|j: int| 0 <= j < t.len() implies (#[trigger] t[j]).0 != k by {
                        if j < s.len() {
                            assert(s[j].0 != k);
                        }
                    }
                }
            }
        }
        button_click(None, now)
    }
}

} // verus!
