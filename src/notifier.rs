use vstd::prelude::*;

verus! {

/// What a listener waits on: a subscription, an application session (or none), an agreement.
#[derive(Clone, Debug, PartialEq, Eq)]
pub enum NotifyKey {
    Subscription(String),
    Session(Option<String>),
    Agreement(String),
}

pub ghost enum KeyView {
    Subscription(Seq<char>),
    Session(Option<Seq<char>>),
    Agreement(Seq<char>),
}

impl View for NotifyKey {
    type V = KeyView;

    open spec fn view(&self) -> KeyView {
        match self {
            NotifyKey::Subscription(s) => KeyView::Subscription(s@),
            NotifyKey::Session(Some(s)) => KeyView::Session(Some(s@)),
            NotifyKey::Session(None) => KeyView::Session(None),
            NotifyKey::Agreement(s) => KeyView::Agreement(s@),
        }
    }
}

impl NotifyKey {
    pub fn same(&self, other: &NotifyKey) -> (r: bool)
        ensures
            r == (self@ == other@),
    {
        match (self, other) {
            (NotifyKey::Subscription(a), NotifyKey::Subscription(b)) => *a == *b,
            (NotifyKey::Agreement(a), NotifyKey::Agreement(b)) => *a == *b,
            (NotifyKey::Session(None), NotifyKey::Session(None)) => true,
            (NotifyKey::Session(Some(a)), NotifyKey::Session(Some(b))) => *a == *b,
            _ => false,
        }
    }

    pub fn duplicate(&self) -> (r: NotifyKey)
        ensures
            r@ == self@,
    {
        match self {
            NotifyKey::Subscription(s) => NotifyKey::Subscription(s.clone()),
            NotifyKey::Session(Some(s)) => NotifyKey::Session(Some(s.clone())),
            NotifyKey::Session(None) => NotifyKey::Session(None),
            NotifyKey::Agreement(s) => NotifyKey::Agreement(s.clone()),
        }
    }
}

/// Where a listener stands.
#[derive(Clone, Copy, Debug, PartialEq, Eq, Structural)]
pub enum Signal {
    /// Nothing happened since it last looked.
    Pending,
    /// Its key was notified.
    Notified,
    /// Its key will never be notified again.
    Unsubscribed,
}

#[derive(Clone, Debug)]
pub struct Listener {
    pub key: NotifyKey,
    pub signal: Signal,
}

/// A registry of listeners, each waiting on a key.
#[derive(Debug)]
pub struct EventNotifier {
    pub listeners: Vec<Listener>,
    pub stopped: Vec<NotifyKey>,
}

pub open spec fn is_stopped(stopped: Seq<NotifyKey>, k: KeyView) -> bool {
    exists|i: int| 0 <= i < stopped.len() && (#[trigger] stopped[i])@ == k
}

/// `after` is `before` with every listener waiting on `key` woken.
pub open spec fn notified(before: EventNotifier, after: EventNotifier, key: KeyView) -> bool {
    &&& after.stopped@ == before.stopped@
    &&& after.listeners@.len() == before.listeners@.len()
    &&& forall|i: int|
        0 <= i < before.listeners@.len() ==> {
            let b = #[trigger] before.listeners@[i];
            let a = after.listeners@[i];
            &&& a.key == b.key
            &&& a.signal == if b.key@ == key && b.signal is Pending {
                Signal::Notified
            } else {
                b.signal
            }
        }
}

/// `after` is `before` with listener `id` added on `key`: it sees only later notifications,
/// and on a key already unsubscribed it is told so at once.
pub open spec fn listened(before: EventNotifier, after: EventNotifier, key: KeyView, id: usize) -> bool {
    &&& id == before.listeners@.len()
    &&& after.stopped@ == before.stopped@
    &&& after.listeners@.len() == before.listeners@.len() + 1
    &&& forall|i: int| 0 <= i < id ==> after.listeners@[i] == before.listeners@[i]
    &&& after.listeners@[id as int].key@ == key
    &&& after.listeners@[id as int].signal == if is_stopped(before.stopped@, key) {
        Signal::Unsubscribed
    } else {
        Signal::Pending
    }
}

/// `r` is the signal of listener `id` in `before`; a notification is consumed by reading it.
pub open spec fn signal_taken(before: EventNotifier, after: EventNotifier, id: int, r: Signal) -> bool {
    &&& 0 <= id < before.listeners@.len()
    &&& r == before.listeners@[id].signal
    &&& after.stopped@ == before.stopped@
    &&& after.listeners@ == before.listeners@.update(
        id,
        Listener {
            signal: if r is Notified {
                Signal::Pending
            } else {
                r
            },
            ..before.listeners@[id]
        },
    )
}

/// `after` is `before` with `key` marked as never to be notified again, and every listener on
/// `key` told so.
pub open spec fn stopped_notifying(before: EventNotifier, after: EventNotifier, key: KeyView) -> bool {
    &&& after.stopped@.len() == before.stopped@.len() + 1
    &&& after.stopped@.last()@ == key
    &&& after.stopped@.drop_last() == before.stopped@
    &&& after.listeners@.len() == before.listeners@.len()
    &&& forall|i: int|
        0 <= i < before.listeners@.len() ==> {
            let b = #[trigger] before.listeners@[i];
            let a = after.listeners@[i];
            &&& a.key == b.key
            &&& a.signal == if b.key@ == key {
                Signal::Unsubscribed
            } else {
                b.signal
            }
        }
}

impl EventNotifier {
    pub fn new() -> (r: EventNotifier)
        ensures
            r.listeners@.len() == 0,
            r.stopped@.len() == 0,
    {
        EventNotifier { listeners: Vec::new(), stopped: Vec::new() }
    }

    pub fn is_unsubscribed(&self, key: &NotifyKey) -> (r: bool)
        ensures
            r == is_stopped(self.stopped@, key@),
    {
        let mut i: usize = 0;
        while i < self.stopped.len()
            invariant
                0 <= i <= self.stopped@.len(),
                forall|j: int| 0 <= j < i ==> (#[trigger] self.stopped@[j])@ != key@,
            decreases self.stopped@.len() - i,
        {
            if self.stopped[i].same(key) {
                return true;
            }
            i = i + 1;
        }
        false
    }

    /// Registers a listener on `key` and returns its handle. It sees only notifications that
    /// come after this call; on a key already unsubscribed it is told so at once.
    pub fn listen(&mut self, key: &NotifyKey) -> (id: usize)
        ensures
            listened(*old(self), *final(self), key@, id),
    {
        let signal = if self.is_unsubscribed(key) {
            Signal::Unsubscribed
        } else {
            Signal::Pending
        };
        let id = self.listeners.len();
        self.listeners.push(Listener { key: key.duplicate(), signal });
        id
    }

    /// Wakes every listener currently waiting on `key`.
    pub fn notify(&mut self, key: &NotifyKey)
        ensures
            notified(*old(self), *final(self), key@),
    {
        let ghost start = self.listeners@;
        let mut i: usize = 0;
        while i < self.listeners.len()
            invariant
                0 <= i <= self.listeners@.len(),
                self.listeners@.len() == start.len(),
                self.stopped@ == old(self).stopped@,
                start == old(self).listeners@,
                forall|j: int|
                    i <= j < start.len() ==> #[trigger] self.listeners@[j] == start[j],
                forall|j: int|
                    0 <= j < i ==> {
                        let before = #[trigger] start[j];
                        let after = self.listeners@[j];
                        &&& after.key == before.key
                        &&& after.signal == if before.key@ == key@ && before.signal is Pending {
                            Signal::Notified
                        } else {
                            before.signal
                        }
                    },
            decreases start.len() - i,
        {
            if self.listeners[i].key.same(key) && self.listeners[i].signal == Signal::Pending {
                self.listeners[i].signal = Signal::Notified;
            }
            i = i + 1;
        }
    }

    /// Marks `key` as never to be notified again; its listeners are told at once.
    pub fn stop_notifying(&mut self, key: &NotifyKey)
        ensures
            stopped_notifying(*old(self), *final(self), key@),
    {
        let ghost start = self.listeners@;
        let ghost stopped0 = self.stopped@;
        self.stopped.push(key.duplicate());
        assert(self.stopped@.drop_last() =~= stopped0);
        let mut i: usize = 0;
        while i < self.listeners.len()
            invariant
                0 <= i <= self.listeners@.len(),
                self.listeners@.len() == start.len(),
                start == old(self).listeners@,
                self.stopped@.len() == stopped0.len() + 1,
                self.stopped@.last()@ == key@,
                self.stopped@.drop_last() == stopped0,
                stopped0 == old(self).stopped@,
                forall|j: int|
                    i <= j < start.len() ==> #[trigger] self.listeners@[j] == start[j],
                forall|j: int|
                    0 <= j < i ==> {
                        let before = #[trigger] start[j];
                        let after = self.listeners@[j];
                        &&& after.key == before.key
                        &&& after.signal == if before.key@ == key@ {
                            Signal::Unsubscribed
                        } else {
                            before.signal
                        }
                    },
            decreases start.len() - i,
        {
            if self.listeners[i].key.same(key) {
                self.listeners[i].signal = Signal::Unsubscribed;
            }
            i = i + 1;
        }
    }

    /// Looks at listener `id`: a notification is consumed by looking; an unsubscription stays.
    pub fn take_signal(&mut self, id: usize) -> (r: Signal)
        requires
            id < old(self).listeners@.len(),
        ensures
            signal_taken(*old(self), *final(self), id as int, r),
    {
        let r = self.listeners[id].signal;
        if r == Signal::Notified {
            self.listeners[id].signal = Signal::Pending;
        }
        proof {
            assert(self.listeners@ =~= old(self).listeners@.update(
                id as int,
                Listener {
                    signal: if r is Notified {
                        Signal::Pending
                    } else {
                        r
                    },
                    ..old(self).listeners@[id as int]
                },
            ));
        }
        r
    }
}

} // verus!
