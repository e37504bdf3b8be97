//! A list that is meant to be read from a signal handler while it may be in the
//! middle of a change: a flag, set for the duration of each change, tells a
//! reader that the list cannot be read at that moment.
use vstd::prelude::*;
use std::collections::VecDeque;
use std::sync::atomic::AtomicBool;
use std::sync::atomic::Ordering;

verus! {

broadcast use vstd::std_specs::vecdeque::group_vec_dequeue_axioms;

/// The list, and the flag that is set while it changes. The flag is read and
/// written atomically, since a signal may interrupt a change at any point.
pub struct SignalSafeLinkedList<T> {
    is_mutating: AtomicBool,
    linked_list: VecDeque<T>,
}

impl<T> View for SignalSafeLinkedList<T> {
    type V = Seq<T>;

    closed spec fn view(&self) -> Seq<T> {
        self.linked_list@
    }
}

impl<T> SignalSafeLinkedList<T> {
    /// An empty list that is not being changed.
    pub fn new() -> (l: SignalSafeLinkedList<T>)
        ensures
            l@ == Seq::<T>::empty(),
    {
        SignalSafeLinkedList { is_mutating: AtomicBool::new(false), linked_list: VecDeque::new() }
    }

    /// The list, or `None` when it is in the middle of a change. Whether it is
    /// in the middle of a change is read from the atomic flag, whose value the
    /// library cannot know; `list_unless_mutating` says what each value gives.
    pub fn get(&self) -> (r: Option<&VecDeque<T>>)
        ensures
            r matches Some(list) ==> list@ == self@,
    {
        let is_mutating = self.is_mutating.load(Ordering::SeqCst);
        Self::list_unless_mutating(is_mutating, &self.linked_list)
    }

    /// What `get` gives for the value `is_mutating` read from the flag: `None`
    /// while a change is under way, the list otherwise.
    pub fn list_unless_mutating<'a>(is_mutating: bool, list: &'a VecDeque<T>) -> (r: Option<&'a VecDeque<T>>)
        ensures
            r is Some <==> !is_mutating,
            r matches Some(l) ==> l@ == list@,
    {
        if is_mutating {
            None
        } else {
            Some(list)
        }
    }

    /// Hands the list to `callback` to change it, with the flag set for the
    /// duration; or hands it `None`, leaving the list as it is, when a change
    /// is already under way. Whether one is under way is read from the atomic
    /// flag, whose value the library cannot know; `mutate_unless_mutating`
    /// says what each value gives.
    pub fn mutate<F>(&mut self, callback: F)
        where
            F: FnOnce(Option<&mut VecDeque<T>>),
        requires
            callback.requires((None,)),
            forall|list: &mut VecDeque<T>| callback.requires((Some(list),)),
        ensures
            ({
                ||| (final(self)@ == old(self)@ && callback.ensures((None,), ()))
                ||| exists|list: &mut VecDeque<T>| {
                    &&& (*list)@ == old(self)@
                    &&& (*final(list))@ == final(self)@
                    &&& callback.ensures((Some(list),), ())
                }
            }),
    {
        let is_mutating = self.is_mutating.load(Ordering::SeqCst);
        self.mutate_unless_mutating(is_mutating, callback);
    }

    /// What `mutate` does for the value `is_mutating` read from the flag:
    /// while a change is under way, `callback` gets `None` and the list stays
    /// as it is; otherwise the flag is set, `callback` gets the list to change
    /// it, and the flag is cleared again.
    pub fn mutate_unless_mutating<F>(&mut self, is_mutating: bool, callback: F)
        where
            F: FnOnce(Option<&mut VecDeque<T>>),
        requires
            callback.requires((None,)),
            forall|list: &mut VecDeque<T>| callback.requires((Some(list),)),
        ensures
            is_mutating ==> final(self)@ == old(self)@ && callback.ensures((None,), ()),
            !is_mutating ==> exists|list: &mut VecDeque<T>| {
                &&& (*list)@ == old(self)@
                &&& (*final(list))@ == final(self)@
                &&& #[trigger] callback.ensures((Some(list),), ())
            },
    {
        if is_mutating {
            callback(None);
        } else {
            self.is_mutating.store(true, Ordering::SeqCst);
            callback(Some(&mut self.linked_list));
            self.is_mutating.store(false, Ordering::SeqCst);
        }
    }
}

} // verus!
