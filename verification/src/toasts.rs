//! Notices: one with a given title is shown at a time.

use vstd::prelude::*;
use crate::text;

verus! {

/// The titles of the notices on the screen or waiting for it.
pub struct ToastManager {
    pub active: Vec<String>,
}

/// What becomes of a notice.
#[derive(Clone, Copy, PartialEq, Eq, Structural)]
pub enum ToastAction {
    /// It is shown.
    Show,
    /// It is shown, and remembered until it goes.
    ShowAndTrack,
    /// The one with the same title is shown again.
    Renew,
}

pub open spec fn is_active(active: Seq<String>, title: Seq<char>) -> bool {
    exists|i: int| 0 <= i < active.len() && (#[trigger] active[i])@ == title
}

impl ToastManager {
    /// No title is there twice.
    pub open spec fn well_formed(self) -> bool {
        forall|a: int, b: int|
            0 <= a < b < self.active@.len() ==> (#[trigger] self.active@[a])@ != (
            #[trigger] self.active@[b])@
    }

    pub fn new() -> (r: Self)
        ensures
            r.well_formed(),
            r.active@.len() == 0,
    {
        ToastManager { active: Vec::new() }
    }

    /// Adds a notice. One without a title is just shown.
    #[verifier::loop_isolation(false)]
    pub fn add_toast(&mut self, title: Option<&str>) -> (r: ToastAction)
        requires
            old(self).well_formed(),
        ensures
            final(self).well_formed(),
            match title {
                None => r == ToastAction::Show && final(self).active@ == old(self).active@,
                Some(title) => if is_active(old(self).active@, title@) {
                    r == ToastAction::Renew && final(self).active@ == old(self).active@
                } else {
                    &&& r == ToastAction::ShowAndTrack
                    &&& final(self).active@.len() == old(self).active@.len() + 1
                    &&& final(self).active@.drop_last() == old(self).active@
                    &&& final(self).active@.last()@ == title@
                },
            },
    {
        match title {
            None => ToastAction::Show,
            Some(title) => {
                let mut i: usize = 0;
                while i < self.active.len()
                    invariant
                        i <= self.active@.len(),
                        *self == *old(self),
                        forall|k: int| 0 <= k < i ==> (#[trigger] self.active@[k])@ != title@,
                    decreases self.active@.len() - i,
                {
                    if text::same_text(self.active[i].as_str(), title) {
                        return ToastAction::Renew;
                    }
                    i += 1;
                }
                self.active.push(title.to_owned());
                assert(self.active@.drop_last() =~= old(self).active@);
                ToastAction::ShowAndTrack
            },
        }
    }

    /// A notice has gone.
    #[verifier::loop_isolation(false)]
    pub fn dismissed(&mut self, title: &str)
        requires
            old(self).well_formed(),
        ensures
            final(self).well_formed(),
            !is_active(final(self).active@, title@),
            forall|t: Seq<char>|
                t != title@ ==> (#[trigger] is_active(final(self).active@, t) <==> is_active(
                    old(self).active@,
                    t,
                )),
    {
        let ghost before = self.active@;
        let mut i: usize = 0;
        while i < self.active.len()
            invariant
                i <= self.active@.len(),
                *self == *old(self),
                before == self.active@,
                self.well_formed(),
                forall|k: int| 0 <= k < i ==> (#[trigger] self.active@[k])@ != title@,
            decreases self.active@.len() - i,
        {
            if text::same_text(self.active[i].as_str(), title) {
                let _gone = self.active.remove(i);
                proof {
                    let after = self.active@;
                    assert(after == before.remove(i as int));
                    assert forall|a: int, b: int| 0 <= a < b < after.len() implies (
                    #[trigger] after[a])@ != (#[trigger] after[b])@ by {
                        let ka = if a < i {
                            a
                        } else {
                            a + 1
                        };
                        let kb = if b < i {
                            b
                        } else {
                            b + 1
                        };
                        assert(after[a] == before[ka] && after[b] == before[kb]);
                    }
                    if is_active(after, title@) {
                        let a = choose|a: int| 0 <= a < after.len() && (#[trigger] after[a])@
                            == title@;
                        let ka = if a < i {
                            a
                        } else {
                            a + 1
                        };
                        assert(after[a] == before[ka]);
                        if ka < i {
                            assert(before[ka]@ != before[i as int]@);
                        } else {
                            assert(before[i as int]@ != before[ka]@);
                        }
                    }
                    assert forall|t: Seq<char>| t != title@ implies (#[trigger] is_active(after, t)
                        <==> is_active(before, t)) by {
                        if is_active(after, t) {
                            let a = choose|a: int| 0 <= a < after.len() && (#[trigger] after[a])@
                                == t;
                            let ka = if a < i {
                                a
                            } else {
                                a + 1
                            };
                            assert(before[ka]@ == t);
                        }
                        if is_active(before, t) {
                            let k = choose|k: int| 0 <= k < before.len() && (
                            #[trigger] before[k])@ == t;
                            let a = if k < i {
                                k
                            } else {
                                k - 1
                            };
                            assert(after[a]@ == t);
                        }
                    }
                }
                return;
            }
            i += 1;
        }
    }
}

/// A message is on the screen exactly where its title is among those that are kept.
pub proof fn kept_titles_are_active(active: Seq<String>, title: Seq<char>)
    ensures
        is_active(active, title) <==> text::views(active).contains(title),
{
    if is_active(active, title) {
        let i = choose|i: int| 0 <= i < active.len() && (#[trigger] active[i])@ == title;
        assert(text::views(active)[i] == title);
    }
    if text::views(active).contains(title) {
        let i = choose|i: int| 0 <= i < active.len() && text::views(active)[i] == title;
        assert(active[i]@ == title);
    }
}

/// No two messages on the screen have one title.
pub proof fn titles_are_kept_once(toasts: ToastManager)
    ensures
        toasts.well_formed() <==> text::views(toasts.active@).no_duplicates(),
{
    let list = text::views(toasts.active@);
    if list.no_duplicates() {
        assert forall|a: int, b: int| 0 <= a < b < toasts.active@.len() implies (
        #[trigger] toasts.active@[a])@ != (#[trigger] toasts.active@[b])@ by {
            assert(list[a] != list[b]);
        }
    }
}

} // verus!
