//! Channels: named conversations, each a list of messages with a busy flag.
use vstd::prelude::*;
use crate::message::{Message, MessageView, clone_messages, messages_view};
use crate::strutil::str_eq;

verus! {

// ===================================================================
// Association lists
// ===================================================================

/// No key occurs twice.
pub open spec fn keys_unique<V>(s: Seq<(Seq<char>, V)>) -> bool {
    forall|i: int, j: int| 0 <= i < j < s.len() ==> #[trigger] s[i].0 != #[trigger] s[j].0
}

/// The map that an association list stands for.
pub open spec fn assoc_map<V>(s: Seq<(Seq<char>, V)>) -> Map<Seq<char>, V> {
    Map::new(
        |k: Seq<char>| exists|i: int| 0 <= i < s.len() && s[i].0 == k,
        |k: Seq<char>| s[choose|i: int| 0 <= i < s.len() && s[i].0 == k].1,
    )
}

pub proof fn lemma_assoc_index<V>(s: Seq<(Seq<char>, V)>, i: int)
    requires
        keys_unique(s),
        0 <= i < s.len(),
    ensures
        assoc_map(s).contains_key(s[i].0),
        assoc_map(s)[s[i].0] == s[i].1,
{
    let k = s[i].0;
    assert(exists|j: int| 0 <= j < s.len() && s[j].0 == k);
    let c = choose|j: int| 0 <= j < s.len() && s[j].0 == k;
    if c < i {
        assert(s[c].0 != s[i].0);
    } else if c > i {
        assert(s[i].0 != s[c].0);
    }
}

pub proof fn lemma_assoc_push<V>(s: Seq<(Seq<char>, V)>, k: Seq<char>, v: V)
    requires
        keys_unique(s),
        !assoc_map(s).contains_key(k),
    ensures
        keys_unique(s.push((k, v))),
        assoc_map(s.push((k, v))) == assoc_map(s).insert(k, v),
{
    let t = s.push((k, v));
    assert forall|i: int, j: int| 0 <= i < j < t.len() implies #[trigger] t[i].0 != #[trigger] t[j].0 by {
        if j == s.len() {
            if t[i].0 == k {
                assert(s[i].0 == k);
            }
        } else {
            assert(s[i].0 != s[j].0);
        }
    }
    lemma_assoc_index(t, s.len() as int);
    assert forall|x: Seq<char>| #[trigger] assoc_map(t).contains_key(x) == assoc_map(s).insert(
        k,
        v,
    ).contains_key(x) by {
        if exists|j: int| 0 <= j < s.len() && s[j].0 == x {
            let j = choose|j: int| 0 <= j < s.len() && s[j].0 == x;
            assert(t[j].0 == x);
        }
        if exists|j: int| 0 <= j < t.len() && t[j].0 == x {
            let j = choose|j: int| 0 <= j < t.len() && t[j].0 == x;
            if j < s.len() {
                assert(s[j].0 == x);
            }
        }
    }
    assert forall|x: Seq<char>| #[trigger] assoc_map(t).contains_key(x) implies assoc_map(t)[x]
        == assoc_map(s).insert(k, v)[x] by {
        if x != k {
            let j = choose|j: int| 0 <= j < t.len() && t[j].0 == x;
            assert(j < s.len());
            assert(t[j] == s[j]);
            lemma_assoc_index(t, j);
            lemma_assoc_index(s, j);
        }
    }
    assert(assoc_map(t) =~= assoc_map(s).insert(k, v));
}

pub proof fn lemma_assoc_remove<V>(s: Seq<(Seq<char>, V)>, i: int)
    requires
        keys_unique(s),
        0 <= i < s.len(),
    ensures
        keys_unique(s.remove(i)),
        assoc_map(s.remove(i)) == assoc_map(s).remove(s[i].0),
{
    let t = s.remove(i);
    let k = s[i].0;
    assert forall|a: int| 0 <= a < t.len() implies #[trigger] t[a] == s[if a < i { a } else { a + 1 }] by {
    }
    assert forall|a: int, b: int| 0 <= a < b < t.len() implies #[trigger] t[a].0 != #[trigger] t[b].0 by {
        let a2 = if a < i { a } else { a + 1 };
        let b2 = if b < i { b } else { b + 1 };
        assert(t[a] == s[a2]);
        assert(t[b] == s[b2]);
        assert(s[a2].0 != s[b2].0);
    }
    assert forall|x: Seq<char>| #[trigger] assoc_map(t).contains_key(x) == assoc_map(s).remove(
        k,
    ).contains_key(x) by {
        if exists|j: int| 0 <= j < t.len() && t[j].0 == x {
            let j = choose|j: int| 0 <= j < t.len() && t[j].0 == x;
            let j2 = if j < i { j } else { j + 1 };
            assert(t[j] == s[j2]);
            assert(s[j2].0 == x);
            if x == k {
                if j2 < i {
                    assert(s[j2].0 != s[i].0);
                } else {
                    assert(s[i].0 != s[j2].0);
                }
            }
        }
        if x != k && exists|j: int| 0 <= j < s.len() && s[j].0 == x {
            let j = choose|j: int| 0 <= j < s.len() && s[j].0 == x;
            assert(j != i);
            let j1 = if j < i { j } else { j - 1 };
            assert(t[j1] == s[j]);
        }
    }
    assert forall|x: Seq<char>| #[trigger] assoc_map(t).contains_key(x) implies assoc_map(t)[x]
        == assoc_map(s).remove(k)[x] by {
        let j = choose|j: int| 0 <= j < t.len() && t[j].0 == x;
        let j2 = if j < i { j } else { j + 1 };
        assert(t[j] == s[j2]);
        lemma_assoc_index(t, j);
        lemma_assoc_index(s, j2);
    }
    assert(assoc_map(t) =~= assoc_map(s).remove(k));
}

pub proof fn lemma_assoc_update<V>(s: Seq<(Seq<char>, V)>, i: int, v: V)
    requires
        keys_unique(s),
        0 <= i < s.len(),
    ensures
        keys_unique(s.update(i, (s[i].0, v))),
        assoc_map(s.update(i, (s[i].0, v))) == assoc_map(s).insert(s[i].0, v),
{
    let t = s.update(i, (s[i].0, v));
    let k = s[i].0;
    assert forall|a: int, b: int| 0 <= a < b < t.len() implies #[trigger] t[a].0 != #[trigger] t[b].0 by {
        assert(t[a].0 == s[a].0);
        assert(t[b].0 == s[b].0);
        assert(s[a].0 != s[b].0);
    }
    assert forall|x: Seq<char>| #[trigger] assoc_map(t).contains_key(x) == assoc_map(s).insert(
        k,
        v,
    ).contains_key(x) by {
        if exists|j: int| 0 <= j < t.len() && t[j].0 == x {
            let j = choose|j: int| 0 <= j < t.len() && t[j].0 == x;
            assert(s[j].0 == x);
        }
        if exists|j: int| 0 <= j < s.len() && s[j].0 == x {
            let j = choose|j: int| 0 <= j < s.len() && s[j].0 == x;
            assert(t[j].0 == x);
        }
        lemma_assoc_index(s, i);
    }
    assert forall|x: Seq<char>| #[trigger] assoc_map(t).contains_key(x) implies assoc_map(t)[x]
        == assoc_map(s).insert(k, v)[x] by {
        let j = choose|j: int| 0 <= j < t.len() && t[j].0 == x;
        lemma_assoc_index(t, j);
        if j != i {
            lemma_assoc_index(s, j);
        }
    }
    assert(assoc_map(t) =~= assoc_map(s).insert(k, v));
}

pub proof fn lemma_assoc_absent<V>(s: Seq<(Seq<char>, V)>, k: Seq<char>)
    requires
        forall|j: int| 0 <= j < s.len() ==> s[j].0 != k,
    ensures
        !assoc_map(s).contains_key(k),
{
}

// ===================================================================
// Channel
// ===================================================================

/// The mathematical value of a channel.
pub struct ChannelView {
    pub messages: Seq<MessageView>,
    pub busy: bool,
    pub cancel: bool,
}

/// A conversation: its messages in order, whether a run is going on in it,
/// and whether that run was asked to stop.
pub struct Channel {
    messages: Vec<Message>,
    busy: bool,
    cancel: bool,
}

impl View for Channel {
    type V = ChannelView;

    closed spec fn view(&self) -> ChannelView {
        ChannelView { messages: messages_view(self.messages@), busy: self.busy, cancel: self.cancel }
    }
}

/// A channel with no messages that is not busy.
pub open spec fn empty_channel() -> ChannelView {
    ChannelView { messages: Seq::empty(), busy: false, cancel: false }
}

/// What `try_set_busy` answers, and the channel after it.
pub open spec fn busy_step(c: ChannelView) -> (bool, ChannelView) {
    (!c.busy, ChannelView { busy: true, ..c })
}

impl Channel {
    /// An empty channel that is not busy.
    pub fn new() -> (r: Self)
        ensures
            r@ == empty_channel(),
    {
        let r = Channel { messages: Vec::new(), busy: false, cancel: false };
        assert(messages_view(r.messages@) =~= Seq::<MessageView>::empty());
        r
    }

    /// Appends a message.
    pub fn add_message(&mut self, msg: Message)
        ensures
            final(self)@ == (ChannelView { messages: old(self)@.messages.push(msg@), ..old(self)@ }),
    {
        let ghost m = msg@;
        self.messages.push(msg);
        assert(messages_view(self.messages@) =~= messages_view(old(self).messages@).push(m));
    }

    /// A copy of the messages.
    pub fn get_messages(&self) -> (r: Vec<Message>)
        ensures
            messages_view(r@) == self@.messages,
    {
        clone_messages(&self.messages)
    }

    /// The number of messages.
    pub fn get_messages_len(&self) -> (r: usize)
        ensures
            r == self@.messages.len(),
    {
        self.messages.len()
    }

    /// Marks the channel busy; `false` when it already was.
    pub fn try_set_busy(&mut self) -> (r: bool)
        ensures
            (r, final(self)@) == busy_step(old(self)@),
    {
        if self.busy {
            false
        } else {
            self.busy = true;
            true
        }
    }

    /// Marks the channel not busy.
    pub fn unset_busy(&mut self)
        ensures
            final(self)@ == (ChannelView { busy: false, ..old(self)@ }),
    {
        self.busy = false;
    }
}

// ===================================================================
// Channels
// ===================================================================

/// Channels by name.
pub struct Channels {
    channels: Vec<(String, Channel)>,
}

impl Channels {
    pub closed spec fn entries(&self) -> Seq<(Seq<char>, ChannelView)> {
        self.channels@.map_values(|e: (String, Channel)| (e.0@, e.1@))
    }

    /// Each name occurs once.
    pub closed spec fn wf(&self) -> bool {
        keys_unique(self.entries())
    }
}

impl View for Channels {
    type V = Map<Seq<char>, ChannelView>;

    closed spec fn view(&self) -> Map<Seq<char>, ChannelView> {
        assoc_map(self.entries())
    }
}

/// The channels after `add_channel(name)`.
pub open spec fn with_channel(m: Map<Seq<char>, ChannelView>, name: Seq<char>) -> Map<
    Seq<char>,
    ChannelView,
> {
    if m.contains_key(name) {
        m
    } else {
        m.insert(name, empty_channel())
    }
}

/// The channels after `rename_channel(from, to)`.
pub open spec fn renamed(m: Map<Seq<char>, ChannelView>, from: Seq<char>, to: Seq<char>) -> Map<
    Seq<char>,
    ChannelView,
> {
    if m.contains_key(from) {
        m.remove(from).insert(to, m[from])
    } else {
        m
    }
}

/// The channels after `clone_channel(src, dest)`: `dest`, made when it is
/// missing, gets the messages of `src` appended.
pub open spec fn cloned_into(m: Map<Seq<char>, ChannelView>, src: Seq<char>, dest: Seq<char>) -> Map<
    Seq<char>,
    ChannelView,
> {
    let d = with_channel(m, dest)[dest];
    m.insert(dest, ChannelView { messages: d.messages + m[src].messages, ..d })
}

impl Channels {
    /// No channels.
    pub fn new() -> (r: Self)
        ensures
            r.wf(),
            r@ == Map::<Seq<char>, ChannelView>::empty(),
    {
        let r = Channels { channels: Vec::new() };
        assert(r@ =~= Map::<Seq<char>, ChannelView>::empty());
        r
    }

    /// The index of the channel named `name`.
    fn find(&self, name: &str) -> (r: Option<usize>)
        requires
            self.wf(),
        ensures
            match r {
                Some(i) => i < self.channels@.len() && self.entries()[i as int].0 == name@,
                None => !self@.contains_key(name@),
            },
    {
        let mut i: usize = 0;
        while i < self.channels.len()
            invariant
                i <= self.channels@.len(),
                forall|j: int| 0 <= j < i ==> self.entries()[j].0 != name@,
            decreases self.channels@.len() - i,
        {
            if str_eq(self.channels[i].0.as_str(), name) {
                return Some(i);
            }
            i = i + 1;
        }
        proof {
            lemma_assoc_absent(self.entries(), name@);
        }
        None
    }

    /// Adds an empty channel named `name`, unless there is one.
    pub fn add_channel(&mut self, channel: &str)
        requires
            old(self).wf(),
        ensures
            final(self).wf(),
            final(self)@ == with_channel(old(self)@, channel@),
    {
        match self.find(channel) {
            Some(i) => {
                proof {
                    lemma_assoc_index(self.entries(), i as int);
                }
            },
            None => {
                let c = Channel::new();
                let ghost cv = c@;
                self.channels.push((channel.to_owned(), c));
                proof {
                    assert(self.entries() =~= old(self).entries().push((channel@, cv)));
                    lemma_assoc_push(old(self).entries(), channel@, cv);
                }
            },
        }
    }

    /// Removes the channel named `name`, if there is one.
    pub fn rem_channel(&mut self, channel: &str)
        requires
            old(self).wf(),
        ensures
            final(self).wf(),
            final(self)@ == old(self)@.remove(channel@),
    {
        match self.find(channel) {
            Some(i) => {
                self.channels.remove(i);
                proof {
                    assert(self.entries() =~= old(self).entries().remove(i as int));
                    lemma_assoc_remove(old(self).entries(), i as int);
                }
            },
            None => {
                assert(old(self)@.remove(channel@) =~= old(self)@);
            },
        }
    }

    /// Gives the channel named `from` the name `to`, in place of any
    /// channel named `to`.
    pub fn rename_channel(&mut self, channel_old: &str, channel_new: &str)
        requires
            old(self).wf(),
        ensures
            final(self).wf(),
            final(self)@ == renamed(old(self)@, channel_old@, channel_new@),
    {
        match self.find(channel_old) {
            Some(i) => {
                let (_, c) = self.channels.remove(i);
                let ghost cv = c@;
                proof {
                    assert(self.entries() =~= old(self).entries().remove(i as int));
                    lemma_assoc_remove(old(self).entries(), i as int);
                    lemma_assoc_index(old(self).entries(), i as int);
                }
                let ghost mid = self@;
                match self.find(channel_new) {
                    Some(j) => {
                        let ghost before = self.entries();
                        self.channels.set(j, (channel_new.to_owned(), c));
                        proof {
                            assert(self.entries() =~= before.update(j as int, (channel_new@, cv)));
                            lemma_assoc_update(before, j as int, cv);
                        }
                    },
                    None => {
                        let ghost before = self.entries();
                        self.channels.push((channel_new.to_owned(), c));
                        proof {
                            assert(self.entries() =~= before.push((channel_new@, cv)));
                            lemma_assoc_push(before, channel_new@, cv);
                        }
                    },
                }
            },
            None => {},
        }
    }

    /// Appends the messages of `channel_src` to `channel_dest`, which is
    /// made when it is missing.
    pub fn clone_channel(&mut self, channel_src: &str, channel_dest: &str)
        requires
            old(self).wf(),
            old(self)@.contains_key(channel_src@),
        ensures
            final(self).wf(),
            final(self)@ == cloned_into(old(self)@, channel_src@, channel_dest@),
    {
        let messages = self.get_channel(channel_src).get_messages();
        self.add_channel(channel_dest);
        let ghost mid = self@;
        let i = match self.find(channel_dest) {
            Some(i) => i,
            None => {
                assert(false);
                0
            },
        };
        proof {
            lemma_assoc_index(self.entries(), i as int);
        }
        let ghost before = self.entries();
        let ghost dv = before[i as int].1;
        let mut k: usize = 0;
        proof {
            assert(messages_view(messages@).take(0) =~= Seq::<MessageView>::empty());
            assert(dv.messages + Seq::<MessageView>::empty() =~= dv.messages);
            assert(before.update(i as int, (before[i as int].0, dv)) =~= before);
        }
        while k < messages.len()
            invariant
                i < self.channels@.len(),
                self.wf(),
                keys_unique(before),
                0 <= k <= messages@.len(),
                self.channels@.len() == before.len(),
                self.entries() == before.update(i as int, (before[i as int].0, ChannelView {
                    messages: dv.messages + messages_view(messages@).take(k as int),
                    ..dv
                })),
            decreases messages@.len() - k,
        {
            let m = messages[k].clone();
            let ghost e = self.entries();
            let ghost chs = self.channels@;
            let mut entry = self.channels.remove(i);
            let ghost old_entry = entry;
            entry.1.add_message(m);
            let ghost new_entry = entry;
            self.channels.insert(i, entry);
            proof {
                assert(old_entry == chs[i as int]);
                assert(self.channels@ =~= chs.update(i as int, new_entry));
                assert(self.entries() =~= e.update(i as int, (new_entry.0@, new_entry.1@)));
                assert(e[i as int] == (old_entry.0@, old_entry.1@));
                assert(old_entry.1@.messages == dv.messages + messages_view(messages@).take(k as int));
                assert(m@ == messages_view(messages@)[k as int]);
                assert(new_entry.1@.messages =~= dv.messages + messages_view(messages@).take(k + 1));
                assert(new_entry.0@ == before[i as int].0);
                assert(messages_view(messages@).take(k + 1) =~= messages_view(messages@).take(
                    k as int,
                ).push(m@));
                assert(self.entries() =~= before.update(i as int, (before[i as int].0, ChannelView {
                    messages: dv.messages + messages_view(messages@).take(k + 1),
                    ..dv
                })));
                assert forall|a: int, b: int| 0 <= a < b < self.entries().len() implies #[trigger] self.entries()[a].0
                    != #[trigger] self.entries()[b].0 by {
                    assert(self.entries()[a].0 == before[a].0);
                    assert(self.entries()[b].0 == before[b].0);
                    assert(before[a].0 != before[b].0);
                }
            }
            k = k + 1;
        }
        proof {
            assert(messages_view(messages@).take(messages@.len() as int) =~= messages_view(
                messages@,
            ));
            lemma_assoc_update(before, i as int, ChannelView {
                messages: dv.messages + messages_view(messages@),
                ..dv
            });
            assert(self@ =~= cloned_into(old(self)@, channel_src@, channel_dest@));
        }
    }

    /// Replaces the channel at index `i`, keeping its name.
    fn put_channel(&mut self, i: usize, c: Channel)
        requires
            old(self).wf(),
            i < old(self).channels@.len(),
        ensures
            final(self).wf(),
            final(self)@ == old(self)@.insert(old(self).entries()[i as int].0, c@),
            final(self).channels@.len() == old(self).channels@.len(),
    {
        let ghost before = self.entries();
        let ghost chs = self.channels@;
        let ghost cv = c@;
        let name = self.channels[i].0.clone();
        self.channels.set(i, (name, c));
        proof {
            assert(self.entries() =~= before.update(i as int, (before[i as int].0, cv)));
            lemma_assoc_update(before, i as int, cv);
        }
    }

    /// The index of the channel named `name`, which is there.
    fn index_of(&self, name: &str) -> (r: usize)
        requires
            self.wf(),
            self@.contains_key(name@),
        ensures
            r < self.channels@.len(),
            self.entries()[r as int].0 == name@,
            self.entries()[r as int].1 == self@[name@],
    {
        match self.find(name) {
            Some(i) => {
                proof {
                    lemma_assoc_index(self.entries(), i as int);
                }
                i
            },
            None => {
                assert(false);
                0
            },
        }
    }

    /// Appends a message to the channel named `channel`.
    pub fn add_message(&mut self, channel: &str, msg: Message)
        requires
            old(self).wf(),
            old(self)@.contains_key(channel@),
        ensures
            final(self).wf(),
            final(self)@ == old(self)@.insert(channel@, ChannelView {
                messages: old(self)@[channel@].messages.push(msg@),
                ..old(self)@[channel@]
            }),
    {
        let i = self.index_of(channel);
        let mut c = Channel {
            messages: clone_messages(&self.channels[i].1.messages),
            busy: self.channels[i].1.busy,
            cancel: self.channels[i].1.cancel,
        };
        c.add_message(msg);
        self.put_channel(i, c);
    }

    /// Marks the channel named `channel` busy; `false` when it already was.
    pub fn try_set_busy(&mut self, channel: &str) -> (r: bool)
        requires
            old(self).wf(),
            old(self)@.contains_key(channel@),
        ensures
            final(self).wf(),
            r == busy_step(old(self)@[channel@]).0,
            final(self)@ == old(self)@.insert(channel@, busy_step(old(self)@[channel@]).1),
    {
        let i = self.index_of(channel);
        if self.channels[i].1.busy {
            assert(self@.insert(channel@, busy_step(self@[channel@]).1) =~= self@);
            false
        } else {
            let c = Channel {
                messages: clone_messages(&self.channels[i].1.messages),
                busy: true,
                cancel: self.channels[i].1.cancel,
            };
            self.put_channel(i, c);
            true
        }
    }

    /// Marks the channel named `channel` not busy.
    pub fn unset_busy(&mut self, channel: &str)
        requires
            old(self).wf(),
            old(self)@.contains_key(channel@),
        ensures
            final(self).wf(),
            final(self)@ == old(self)@.insert(channel@, ChannelView {
                busy: false,
                ..old(self)@[channel@]
            }),
    {
        let i = self.index_of(channel);
        let c = Channel {
            messages: clone_messages(&self.channels[i].1.messages),
            busy: false,
            cancel: self.channels[i].1.cancel,
        };
        self.put_channel(i, c);
    }

    /// Whether there is a channel named `channel`.
    pub fn has_channel(&self, channel: &str) -> (r: bool)
        requires
            self.wf(),
        ensures
            r == self@.contains_key(channel@),
    {
        match self.find(channel) {
            Some(i) => {
                proof {
                    lemma_assoc_index(self.entries(), i as int);
                }
                true
            },
            None => false,
        }
    }

    /// The channel named `name`.
    pub fn get_channel(&self, channel: &str) -> (r: &Channel)
        requires
            self.wf(),
            self@.contains_key(channel@),
        ensures
            r@ == self@[channel@],
    {
        match self.find(channel) {
            Some(i) => {
                proof {
                    lemma_assoc_index(self.entries(), i as int);
                }
                &self.channels[i].1
            },
            None => {
                assert(false);
                &self.channels[0].1
            },
        }
    }
}

// ===================================================================
// Laws
// ===================================================================

/// Adding a channel twice is adding it once.
pub proof fn law_add_channel_idempotent(m: Map<Seq<char>, ChannelView>, name: Seq<char>)
    ensures
        with_channel(with_channel(m, name), name) == with_channel(m, name),
{
}

/// Removing a channel that was just added to channels that lacked it gives
/// the channels back.
pub proof fn law_remove_undoes_add(m: Map<Seq<char>, ChannelView>, name: Seq<char>)
    requires
        !m.contains_key(name),
    ensures
        with_channel(m, name).remove(name) == m,
{
    assert(with_channel(m, name).remove(name) =~= m);
}

/// Renaming a channel to a free name and back gives the channels back.
pub proof fn law_rename_back(m: Map<Seq<char>, ChannelView>, from: Seq<char>, to: Seq<char>)
    requires
        m.contains_key(from),
        !m.contains_key(to),
    ensures
        renamed(renamed(m, from, to), to, from) == m,
{
    let r = renamed(m, from, to);
    assert(r.contains_key(to));
    assert(renamed(r, to, from) =~= m);
}

/// Renaming keeps the channel itself: its messages and flags move to the
/// new name, and every other channel stays.
pub proof fn law_rename_keeps_channel(
    m: Map<Seq<char>, ChannelView>,
    from: Seq<char>,
    to: Seq<char>,
    other: Seq<char>,
)
    requires
        m.contains_key(from),
        other != from,
        other != to,
    ensures
        renamed(m, from, to)[to] == m[from],
        !renamed(m, from, to).contains_key(from) || from == to,
        renamed(m, from, to).contains_key(other) == m.contains_key(other),
        m.contains_key(other) ==> renamed(m, from, to)[other] == m[other],
{
}

/// Cloning into a missing channel makes a channel that is not busy and
/// holds exactly the messages of the source; the source stays as it was.
pub proof fn law_clone_copies(m: Map<Seq<char>, ChannelView>, src: Seq<char>, dest: Seq<char>)
    requires
        m.contains_key(src),
        !m.contains_key(dest),
    ensures
        cloned_into(m, src, dest)[dest].messages == m[src].messages,
        !cloned_into(m, src, dest)[dest].busy,
        cloned_into(m, src, dest)[src] == m[src],
{
    assert(Seq::<MessageView>::empty() + m[src].messages =~= m[src].messages);
}

/// A channel is taken by at most one run: after `try_set_busy` succeeds,
/// a second one fails, and after `unset_busy` the next one succeeds.
pub proof fn law_busy_exclusive(c: ChannelView)
    ensures
        !(busy_step(c).0 && busy_step(busy_step(c).1).0),
        busy_step(ChannelView { busy: false, ..busy_step(c).1 }).0,
        busy_step(c).1.messages == c.messages,
{
}

} // verus!
