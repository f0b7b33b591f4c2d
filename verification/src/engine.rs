//! The dispatch engine: a binding table from descriptors to constructor
//! functions, a LIFO buffer of produced values, and an optional character
//! recording buffer. One dispatch pass consumes raw events that the
//! surrounding event feed has already drained from the platform.

use core::marker::PhantomData;
use vstd::prelude::*;

use crate::descriptor::EventType;
use crate::descriptor::Key;
use crate::descriptor::Modifiers;
use crate::descriptor::MouseButton;

verus! {

/// One raw event as handed over by the platform event feed, already reduced
/// to plain values. `P` is the position payload handed to constructors
/// (window coordinates, cursor coordinates, scroll deltas), `S` the file
/// path payload of drag-and-drop events.
pub enum RawEvent<P, S> {
    /// A key press or release, carrying the raw scan code, the symbolic key
    /// if the feed could translate it, and the modifier state.
    KeyboardInput { pressed: bool, scancode: u32, key: Option<Key>, modifiers: Modifiers },
    /// A mouse button press or release.
    MouseInput { pressed: bool, button: MouseButton, modifiers: Modifiers },
    /// The window was resized; the payload is the new size.
    Resized(P),
    /// The window was moved; the payload is the new position.
    Moved(P),
    /// The window was asked to close.
    CloseRequested,
    /// The window was destroyed.
    Destroyed,
    /// A file was dropped into the window.
    DroppedFile(S),
    /// A file is hovering over the window.
    HoveredFile(S),
    /// A hovered file left the window without being dropped.
    HoveredFileCancelled,
    /// One decoded character of text input.
    ReceivedCharacter(char),
    /// The window gained (`true`) or lost (`false`) focus.
    Focused(bool),
    /// The cursor moved; the payload is its position.
    CursorMoved(P),
    /// The cursor entered the window.
    CursorEntered,
    /// The cursor left the window.
    CursorLeft,
    /// The wheel scrolled; the payload is the delta.
    MouseWheel(P),
    /// The window asked to be redrawn.
    Refresh,
    /// Any other raw event category; dispatch ignores it.
    Ignored,
}

impl<P, S> RawEvent<P, S> {
    /// The binding-table lookups one raw event gives rise to, in order:
    /// each is a descriptor together with the position and optional path
    /// that a matching constructor would be invoked with. `zero` stands in
    /// for events that report no coordinates of their own.
    pub open spec fn hits(self, zero: P) -> Seq<(EventType, P, Option<S>)> {
        match self {
            RawEvent::KeyboardInput { pressed, scancode, key, modifiers } => {
                let scan_t = if pressed {
                    EventType::ScanCodePress(scancode, modifiers)
                } else {
                    EventType::ScanCodeRelease(scancode, modifiers)
                };
                match key {
                    Some(k) => {
                        let key_t = if pressed {
                            EventType::KeyPress(k, modifiers)
                        } else {
                            EventType::KeyRelease(k, modifiers)
                        };
                        seq![(key_t, zero, None), (scan_t, zero, None)]
                    },
                    None => seq![(scan_t, zero, None)],
                }
            },
            RawEvent::MouseInput { pressed, button, modifiers } => {
                let t = if pressed {
                    EventType::MousePress(button, modifiers)
                } else {
                    EventType::MouseRelease(button, modifiers)
                };
                seq![(t, zero, None)]
            },
            RawEvent::Resized(p) => seq![(EventType::WindowResized, p, None)],
            RawEvent::Moved(p) => seq![(EventType::WindowResized, p, None)],
            RawEvent::CloseRequested => seq![(EventType::Closed, zero, None)],
            RawEvent::Destroyed => seq![(EventType::Closed, zero, None)],
            RawEvent::DroppedFile(path) => seq![(EventType::DroppedFile, zero, Some(path))],
            RawEvent::HoveredFile(_) => seq![(EventType::HoveredFile, zero, None)],
            RawEvent::HoveredFileCancelled => seq![
                (EventType::HoveredFileCancelled, zero, None),
            ],
            RawEvent::ReceivedCharacter(_) => Seq::empty(),
            RawEvent::Focused(gained) => {
                let t = if gained {
                    EventType::Focused
                } else {
                    EventType::UnFocused
                };
                seq![(t, zero, None)]
            },
            RawEvent::CursorMoved(p) => seq![(EventType::MouseMoved, p, None)],
            RawEvent::CursorEntered => seq![(EventType::MouseEntered, zero, None)],
            RawEvent::CursorLeft => seq![(EventType::MouseLeft, zero, None)],
            RawEvent::MouseWheel(p) => seq![(EventType::MouseWheel, p, None)],
            RawEvent::Refresh => seq![(EventType::Refresh, zero, None)],
            RawEvent::Ignored => Seq::empty(),
        }
    }
}

/// The dispatch engine. `P` is the position payload, `S` the file path
/// payload, `E` the application-defined value that constructors produce,
/// and `F` the constructor type, a function from a position and an optional
/// path to an `E`.
pub struct Events<P, S, E, F> {
    bindings: Vec<(EventType, F)>,
    buffer: Vec<E>,
    chars: Option<Vec<char>>,
    origin: P,
    feed: PhantomData<S>,
}

impl<P, S, E, F> Events<P, S, E, F> {
    /// The mapping an association sequence stands for: later entries win.
    pub closed spec fn table_of(s: Seq<(EventType, F)>) -> Map<EventType, F>
        decreases s.len(),
    {
        if s.len() == 0 {
            Map::empty()
        } else {
            Self::table_of(s.drop_last()).insert(s.last().0, s.last().1)
        }
    }

    /// No two entries of the association sequence share a descriptor.
    pub closed spec fn keys_unique(s: Seq<(EventType, F)>) -> bool {
        forall|i: int, j: int|
            0 <= i < j < s.len() ==> (#[trigger] s[i]).0 != (#[trigger] s[j]).0
    }

    /// The binding table as a mapping from descriptors to constructors.
    pub closed spec fn table(self) -> Map<EventType, F> {
        Self::table_of(self.bindings@)
    }

    /// The buffered values, oldest first; the pull operation drains from
    /// the back.
    pub closed spec fn queue(self) -> Seq<E> {
        self.buffer@
    }

    /// The character recording buffer: absent when recording is inactive.
    pub closed spec fn recorded(self) -> Option<Seq<char>> {
        match self.chars {
            Some(v) => Some(v@),
            None => None,
        }
    }

    /// The position handed to constructors for events that report no
    /// coordinates of their own.
    pub closed spec fn origin(self) -> P {
        self.origin
    }

    proof fn lemma_table_of_absent(s: Seq<(EventType, F)>, k: EventType)
        requires
            forall|i: int| 0 <= i < s.len() ==> (#[trigger] s[i]).0 != k,
        ensures
            !Self::table_of(s).contains_key(k),
        decreases s.len(),
    {
        if s.len() > 0 {
            assert(s.last() == s[s.len() - 1]);
            assert(forall|i: int|
                0 <= i < s.drop_last().len() ==> (#[trigger] s.drop_last()[i]).0 != k);
            Self::lemma_table_of_absent(s.drop_last(), k);
        }
    }

    proof fn lemma_keys_unique_drop_last(s: Seq<(EventType, F)>)
        requires
            Self::keys_unique(s),
            s.len() > 0,
        ensures
            Self::keys_unique(s.drop_last()),
            forall|i: int|
                0 <= i < s.drop_last().len() ==> (#[trigger] s.drop_last()[i]).0 != s.last().0,
    {
        assert forall|i: int|
            0 <= i < s.drop_last().len() implies (#[trigger] s.drop_last()[i]).0
            != s.last().0 by {
            assert(s[i] == s.drop_last()[i]);
            assert(s.last() == s[s.len() - 1]);
        }
        assert forall|i: int, j: int|
            0 <= i < j < s.drop_last().len() implies (#[trigger] s.drop_last()[i]).0
            != (#[trigger] s.drop_last()[j]).0 by {
            assert(s[i] == s.drop_last()[i]);
            assert(s[j] == s.drop_last()[j]);
        }
    }

    proof fn lemma_table_of_present(s: Seq<(EventType, F)>, i: int)
        requires
            Self::keys_unique(s),
            0 <= i < s.len(),
        ensures
            Self::table_of(s).contains_key(s[i].0),
            Self::table_of(s)[s[i].0] == s[i].1,
        decreases s.len(),
    {
        assert(s.last() == s[s.len() - 1]);
        if i < s.len() - 1 {
            Self::lemma_keys_unique_drop_last(s);
            assert(s.drop_last()[i] == s[i]);
            Self::lemma_table_of_present(s.drop_last(), i);
        }
    }

    proof fn lemma_table_of_push(s: Seq<(EventType, F)>, p: (EventType, F))
        ensures
            Self::table_of(s.push(p)) == Self::table_of(s).insert(p.0, p.1),
    {
        assert(s.push(p).drop_last() =~= s);
        assert(s.push(p).last() == p);
    }

    proof fn lemma_table_of_remove(s: Seq<(EventType, F)>, i: int)
        requires
            Self::keys_unique(s),
            0 <= i < s.len(),
        ensures
            Self::table_of(s.remove(i)) == Self::table_of(s).remove(s[i].0),
        decreases s.len(),
    {
        let k = s[i].0;
        assert(s.last() == s[s.len() - 1]);
        Self::lemma_keys_unique_drop_last(s);
        if i == s.len() - 1 {
            assert(s.remove(i) =~= s.drop_last());
            Self::lemma_table_of_absent(s.drop_last(), k);
            assert(Self::table_of(s).remove(k) =~= Self::table_of(s.drop_last()));
        } else {
            assert(s.remove(i).drop_last() =~= s.drop_last().remove(i));
            assert(s.remove(i).last() == s.last());
            Self::lemma_table_of_remove(s.drop_last(), i);
            assert(s.drop_last()[i] == s[i]);
            assert(Self::table_of(s.remove(i)) == Self::table_of(s.drop_last()).remove(k).insert(
                s.last().0,
                s.last().1,
            ));
            assert(Self::table_of(s).remove(k) =~= Self::table_of(s.drop_last()).remove(k).insert(
                s.last().0,
                s.last().1,
            ));
        }
    }
}

impl<P: Copy, S, E, F: Copy + Fn(P, Option<S>) -> E> Events<P, S, E, F> {
    /// The engine is well formed: each descriptor is bound at most once,
    /// and every stored constructor accepts every argument.
    pub closed spec fn wf(self) -> bool {
        &&& Self::keys_unique(self.bindings@)
        &&& forall|i: int, args: (P, Option<S>)|
            0 <= i < self.bindings@.len() ==> #[trigger] call_requires(
                self.bindings@[i].1,
                args,
            )
    }

    /// A fresh engine: nothing bound, nothing buffered, recording inactive.
    /// `origin` is the position handed to constructors for events that
    /// report no coordinates of their own.
    pub fn new(origin: P) -> (r: Self)
        ensures
            r.wf(),
            r.table() == Map::<EventType, F>::empty(),
            r.queue() == Seq::<E>::empty(),
            r.recorded() == None::<Seq<char>>,
            r.origin() == origin,
    {
        let r = Events {
            bindings: Vec::new(),
            buffer: Vec::new(),
            chars: None,
            origin,
            feed: PhantomData,
        };
        proof {
            assert(r.table() =~= Map::<EventType, F>::empty());
            assert(r.queue() =~= Seq::<E>::empty());
        }
        r
    }

    /// How many produced values are waiting in the buffer.
    pub fn buffered_len(&self) -> (r: usize)
        ensures
            r == self.queue().len(),
    {
        self.buffer.len()
    }

    fn find_index(&self, typ: EventType) -> (r: Option<usize>)
        ensures
            match r {
                Some(i) => i < self.bindings@.len() && self.bindings@[i as int].0 == typ,
                None => forall|i: int|
                    0 <= i < self.bindings@.len() ==> (#[trigger] self.bindings@[i]).0 != typ,
            },
    {
        let mut i: usize = 0;
        while i < self.bindings.len()
            invariant
                i <= self.bindings@.len(),
                forall|j: int| 0 <= j < i ==> (#[trigger] self.bindings@[j]).0 != typ,
            decreases self.bindings@.len() - i,
        {
            if self.bindings[i].0 == typ {
                return Some(i);
            }
            i = i + 1;
        }
        None
    }

    /// Remove the binding for one descriptor; removing an absent one is a
    /// no-op.
    pub fn remove_binding(&mut self, typ: EventType)
        requires
            old(self).wf(),
        ensures
            final(self).wf(),
            final(self).table() == old(self).table().remove(typ),
            final(self).queue() == old(self).queue(),
            final(self).recorded() == old(self).recorded(),
            final(self).origin() == old(self).origin(),
    {
        match self.find_index(typ) {
            Some(i) => {
                let _ = self.bindings.remove(i);
                proof {
                    Self::lemma_table_of_remove(old(self).bindings@, i as int);
                    assert forall|a: int, b: int|
                        0 <= a < b < self.bindings@.len() implies (#[trigger] self.bindings@[a]).0
                        != (#[trigger] self.bindings@[b]).0 by {
                        assert(self.bindings@ == old(self).bindings@.remove(i as int));
                    }
                    assert forall|a: int, args: (P, Option<S>)|
                        0 <= a < self.bindings@.len() implies #[trigger] call_requires(
                        self.bindings@[a].1,
                        args,
                    ) by {
                        assert(self.bindings@ == old(self).bindings@.remove(i as int));
                        if a < i {
                            assert(self.bindings@[a] == old(self).bindings@[a]);
                            assert(call_requires(old(self).bindings@[a].1, args));
                        } else {
                            assert(self.bindings@[a] == old(self).bindings@[a + 1]);
                            assert(call_requires(old(self).bindings@[a + 1].1, args));
                        }
                    }
                }
            },
            None => {
                proof {
                    Self::lemma_table_of_absent(self.bindings@, typ);
                    assert(old(self).table().remove(typ) =~= old(self).table());
                }
            },
        }
    }

    /// Bind a constructor to one descriptor, overwriting any existing
    /// binding for it.
    pub fn add_binding(&mut self, typ: EventType, constructor: F)
        requires
            old(self).wf(),
            forall|args: (P, Option<S>)| call_requires(constructor, args),
        ensures
            final(self).wf(),
            final(self).table() == old(self).table().insert(typ, constructor),
            final(self).queue() == old(self).queue(),
            final(self).recorded() == old(self).recorded(),
            final(self).origin() == old(self).origin(),
    {
        self.remove_binding(typ);
        let ghost mid = *self;
        self.bindings.push((typ, constructor));
        proof {
            assert forall|i: int|
                0 <= i < mid.bindings@.len() implies (#[trigger] mid.bindings@[i]).0 != typ by {
                if mid.bindings@[i].0 == typ {
                    Self::lemma_table_of_present(mid.bindings@, i);
                }
            }
            Self::lemma_table_of_push(mid.bindings@, (typ, constructor));
            assert(final(self).table() =~= old(self).table().insert(typ, constructor));
            assert forall|a: int, b: int|
                0 <= a < b < self.bindings@.len() implies (#[trigger] self.bindings@[a]).0
                != (#[trigger] self.bindings@[b]).0 by {
                assert(self.bindings@ == mid.bindings@.push((typ, constructor)));
            }
            assert forall|a: int, args: (P, Option<S>)|
                0 <= a < self.bindings@.len() implies #[trigger] call_requires(
                self.bindings@[a].1,
                args,
            ) by {
                assert(self.bindings@ == mid.bindings@.push((typ, constructor)));
                if a < mid.bindings@.len() {
                    assert(call_requires(mid.bindings@[a].1, args));
                }
            }
        }
    }

    /// Begin recording typed characters; if recording is already active the
    /// buffer is kept as it is.
    pub fn start_recording_chars(&mut self)
        ensures
            final(self).recorded() == (match old(self).recorded() {
                Some(b) => Some(b),
                None => Some(Seq::<char>::empty()),
            }),
            final(self).table() == old(self).table(),
            final(self).queue() == old(self).queue(),
            final(self).origin() == old(self).origin(),
            final(self).wf() == old(self).wf(),
    {
        if self.chars.is_none() {
            self.chars = Some(Vec::new());
        }
    }

    /// Stop recording and discard anything buffered; characters are dropped
    /// until recording restarts.
    pub fn stop_recording_chars(&mut self)
        ensures
            final(self).recorded() == None::<Seq<char>>,
            final(self).table() == old(self).table(),
            final(self).queue() == old(self).queue(),
            final(self).origin() == old(self).origin(),
            final(self).wf() == old(self).wf(),
    {
        self.chars = None;
    }

    /// Hand out the recorded characters, leaving a fresh empty buffer in
    /// place (so recording is active afterwards in any case).
    pub fn char_buf(&mut self) -> (r: Option<Vec<char>>)
        ensures
            final(self).recorded() == Some(Seq::<char>::empty()),
            (match r {
                Some(v) => old(self).recorded() == Some(v@),
                None => old(self).recorded() is None,
            }),
            final(self).table() == old(self).table(),
            final(self).queue() == old(self).queue(),
            final(self).origin() == old(self).origin(),
            final(self).wf() == old(self).wf(),
    {
        let mut taken: Option<Vec<char>> = Some(Vec::new());
        core::mem::swap(&mut self.chars, &mut taken);
        taken
    }

    /// Every descriptor outside the 16 expansions of `typ` is bound in
    /// `post` exactly as it was in `pre`.
    pub open spec fn untouched_outside_combos(pre: Self, post: Self, typ: EventType) -> bool {
        forall|t: EventType|
            (forall|i: int| 0 <= i < 16 ==> t != #[trigger] typ.combo(i))
                ==> #[trigger] post.table().contains_key(t) == pre.table().contains_key(t) && (
            pre.table().contains_key(t) ==> post.table()[t] == pre.table()[t])
    }

    /// Bind a constructor to all 16 modifier-combination expansions of the
    /// descriptor, so it fires regardless of modifier state.
    pub fn add_binding_modifier_ignorant(&mut self, typ: EventType, constructor: F)
        requires
            old(self).wf(),
            forall|args: (P, Option<S>)| call_requires(constructor, args),
        ensures
            final(self).wf(),
            forall|i: int|
                0 <= i < 16 ==> final(self).table().contains_key(#[trigger] typ.combo(i))
                    && final(self).table()[typ.combo(i)] == constructor,
            Self::untouched_outside_combos(*old(self), *final(self), typ),
            final(self).queue() == old(self).queue(),
            final(self).recorded() == old(self).recorded(),
            final(self).origin() == old(self).origin(),
    {
        let combos = typ.modifier_combos();
        let mut i: usize = 0;
        while i < 16
            invariant
                self.wf(),
                i <= 16,
                forall|args: (P, Option<S>)| call_requires(constructor, args),
                forall|j: int| 0 <= j < 16 ==> combos@[j] == typ.combo(j),
                forall|j: int|
                    0 <= j < i ==> self.table().contains_key(#[trigger] typ.combo(j))
                        && self.table()[typ.combo(j)] == constructor,
                Self::untouched_outside_combos(*old(self), *self, typ),
                self.queue() == old(self).queue(),
                self.recorded() == old(self).recorded(),
                self.origin() == old(self).origin(),
            decreases 16 - i,
        {
            self.add_binding(combos[i], constructor);
            proof {
                assert forall|t: EventType|
                    (forall|j: int| 0 <= j < 16 ==> t != #[trigger] typ.combo(j))
                        implies #[trigger] self.table().contains_key(t) == old(
                    self,
                ).table().contains_key(t) && (old(self).table().contains_key(t) ==> self.table()[t]
                    == old(self).table()[t]) by {
                    assert(t != typ.combo(i as int));
                }
            }
            i = i + 1;
        }
    }

    /// Remove the bindings for all 16 modifier-combination expansions of
    /// the descriptor; absent ones are skipped silently.
    pub fn remove_binding_modifier_ignorant(&mut self, typ: EventType)
        requires
            old(self).wf(),
        ensures
            final(self).wf(),
            forall|i: int| 0 <= i < 16 ==> !final(self).table().contains_key(#[trigger] typ.combo(i)),
            Self::untouched_outside_combos(*old(self), *final(self), typ),
            final(self).queue() == old(self).queue(),
            final(self).recorded() == old(self).recorded(),
            final(self).origin() == old(self).origin(),
    {
        let combos = typ.modifier_combos();
        let mut i: usize = 0;
        while i < 16
            invariant
                self.wf(),
                i <= 16,
                forall|j: int| 0 <= j < 16 ==> combos@[j] == typ.combo(j),
                forall|j: int| 0 <= j < i ==> !self.table().contains_key(#[trigger] typ.combo(j)),
                Self::untouched_outside_combos(*old(self), *self, typ),
                self.queue() == old(self).queue(),
                self.recorded() == old(self).recorded(),
                self.origin() == old(self).origin(),
            decreases 16 - i,
        {
            self.remove_binding(combos[i]);
            proof {
                assert forall|t: EventType|
                    (forall|j: int| 0 <= j < 16 ==> t != #[trigger] typ.combo(j))
                        implies #[trigger] self.table().contains_key(t) == old(
                    self,
                ).table().contains_key(t) && (old(self).table().contains_key(t) ==> self.table()[t]
                    == old(self).table()[t]) by {
                    assert(t != typ.combo(i as int));
                }
            }
            i = i + 1;
        }
    }

    /// One binding-table consultation: on a hit, the constructor's result
    /// for the given position and path is appended to the buffer; a miss
    /// leaves the buffer untouched and raises nothing.
    pub open spec fn hit_step(
        table: Map<EventType, F>,
        pre: Seq<E>,
        post: Seq<E>,
        hit: (EventType, P, Option<S>),
    ) -> bool {
        if table.contains_key(hit.0) {
            &&& post.len() == pre.len() + 1
            &&& post.drop_last() == pre
            &&& call_ensures(table[hit.0], (hit.1, hit.2), post.last())
        } else {
            post == pre
        }
    }

    /// The buffer evolution of a list of consultations, performed in order.
    pub open spec fn steps(
        table: Map<EventType, F>,
        pre: Seq<E>,
        post: Seq<E>,
        hs: Seq<(EventType, P, Option<S>)>,
    ) -> bool
        decreases hs.len(),
    {
        if hs.len() <= 0 {
            post == pre
        } else {
            exists|mid: Seq<E>|
                #[trigger] Self::hit_step(table, pre, mid, hs[0]) && Self::steps(
                    table,
                    mid,
                    post,
                    hs.skip(1),
                )
        }
    }

    proof fn lemma_steps_one(
        table: Map<EventType, F>,
        pre: Seq<E>,
        post: Seq<E>,
        h: (EventType, P, Option<S>),
    )
        requires
            Self::hit_step(table, pre, post, h),
        ensures
            Self::steps(table, pre, post, seq![h]),
    {
        let hs = seq![h];
        assert(hs.skip(1) =~= Seq::<(EventType, P, Option<S>)>::empty());
        assert(Self::steps(table, post, post, hs.skip(1)));
        assert(Self::hit_step(table, pre, post, hs[0]));
    }

    proof fn lemma_steps_two(
        table: Map<EventType, F>,
        pre: Seq<E>,
        mid: Seq<E>,
        post: Seq<E>,
        h1: (EventType, P, Option<S>),
        h2: (EventType, P, Option<S>),
    )
        requires
            Self::hit_step(table, pre, mid, h1),
            Self::hit_step(table, mid, post, h2),
        ensures
            Self::steps(table, pre, post, seq![h1, h2]),
    {
        let hs = seq![h1, h2];
        assert(hs.skip(1) =~= seq![h2]);
        Self::lemma_steps_one(table, mid, post, h2);
        assert(Self::hit_step(table, pre, mid, hs[0]));
    }

    /// What one dispatched raw event does to the engine: the binding table
    /// and origin are untouched; a typed character is appended to the
    /// recording buffer exactly when recording is active; every other event
    /// drives its binding-table consultations through the buffer.
    pub open spec fn dispatch_post(pre: Self, post: Self, raw: RawEvent<P, S>) -> bool {
        &&& post.table() == pre.table()
        &&& post.origin() == pre.origin()
        &&& match raw {
            RawEvent::ReceivedCharacter(c) => {
                &&& post.queue() == pre.queue()
                &&& post.recorded() == (match pre.recorded() {
                    Some(b) => Some(b.push(c)),
                    None => None::<Seq<char>>,
                })
            },
            _ => {
                &&& post.recorded() == pre.recorded()
                &&& Self::steps(pre.table(), pre.queue(), post.queue(), raw.hits(pre.origin()))
            },
        }
    }

    fn handle(&mut self, typ: EventType, pos: P, path: Option<S>)
        requires
            old(self).wf(),
        ensures
            final(self).wf(),
            final(self).table() == old(self).table(),
            final(self).recorded() == old(self).recorded(),
            final(self).origin() == old(self).origin(),
            Self::hit_step(old(self).table(), old(self).queue(), final(self).queue(), (typ, pos, path)),
    {
        match self.find_index(typ) {
            Some(i) => {
                proof {
                    Self::lemma_table_of_present(self.bindings@, i as int);
                    assert(call_requires(self.bindings@[i as int].1, (pos, path)));
                }
                let f = self.bindings[i].1;
                let value = f(pos, path);
                self.buffer.push(value);
                proof {
                    assert(final(self).queue().drop_last() =~= old(self).queue());
                }
            },
            None => {
                proof {
                    Self::lemma_table_of_absent(self.bindings@, typ);
                }
            },
        }
    }

    /// Dispatch one raw event: classify it, consult the binding table for
    /// each descriptor it maps to, append each matching constructor's
    /// result to the buffer, and record typed characters while recording is
    /// active. Misses are silent.
    pub fn dispatch(&mut self, raw: RawEvent<P, S>)
        requires
            old(self).wf(),
        ensures
            final(self).wf(),
            Self::dispatch_post(*old(self), *final(self), raw),
    {
        let ghost graw = raw;
        let zero = self.origin;
        match raw {
            RawEvent::KeyboardInput { pressed, scancode, key, modifiers } => {
                let scan_t = if pressed {
                    EventType::ScanCodePress(scancode, modifiers)
                } else {
                    EventType::ScanCodeRelease(scancode, modifiers)
                };
                match key {
                    Some(k) => {
                        let key_t = if pressed {
                            EventType::KeyPress(k, modifiers)
                        } else {
                            EventType::KeyRelease(k, modifiers)
                        };
                        let ghost q0 = self.queue();
                        self.handle(key_t, zero, None);
                        let ghost q1 = self.queue();
                        self.handle(scan_t, zero, None);
                        proof {
                            Self::lemma_steps_two(
                                old(self).table(),
                                q0,
                                q1,
                                self.queue(),
                                (key_t, zero, None::<S>),
                                (scan_t, zero, None::<S>),
                            );
                            assert(graw.hits(old(self).origin()) == seq![
                                (key_t, zero, None::<S>),
                                (scan_t, zero, None::<S>),
                            ]);
                        }
                    },
                    None => {
                        let ghost q0 = self.queue();
                        self.handle(scan_t, zero, None);
                        proof {
                            Self::lemma_steps_one(
                                old(self).table(),
                                q0,
                                self.queue(),
                                (scan_t, zero, None::<S>),
                            );
                        }
                    },
                }
            },
            RawEvent::MouseInput { pressed, button, modifiers } => {
                let t = if pressed {
                    EventType::MousePress(button, modifiers)
                } else {
                    EventType::MouseRelease(button, modifiers)
                };
                let ghost q0 = self.queue();
                self.handle(t, zero, None);
                proof {
                    Self::lemma_steps_one(old(self).table(), q0, self.queue(), (t, zero, None::<S>));
                }
            },
            RawEvent::Resized(p) => {
                let ghost q0 = self.queue();
                self.handle(EventType::WindowResized, p, None);
                proof {
                    Self::lemma_steps_one(
                        old(self).table(),
                        q0,
                        self.queue(),
                        (EventType::WindowResized, p, None::<S>),
                    );
                }
            },
            RawEvent::Moved(p) => {
                let ghost q0 = self.queue();
                self.handle(EventType::WindowResized, p, None);
                proof {
                    Self::lemma_steps_one(
                        old(self).table(),
                        q0,
                        self.queue(),
                        (EventType::WindowResized, p, None::<S>),
                    );
                }
            },
            RawEvent::CloseRequested => {
                let ghost q0 = self.queue();
                self.handle(EventType::Closed, zero, None);
                proof {
                    Self::lemma_steps_one(
                        old(self).table(),
                        q0,
                        self.queue(),
                        (EventType::Closed, zero, None::<S>),
                    );
                }
            },
            RawEvent::Destroyed => {
                let ghost q0 = self.queue();
                self.handle(EventType::Closed, zero, None);
                proof {
                    Self::lemma_steps_one(
                        old(self).table(),
                        q0,
                        self.queue(),
                        (EventType::Closed, zero, None::<S>),
                    );
                }
            },
            RawEvent::DroppedFile(path) => {
                let ghost q0 = self.queue();
                let ghost gpath = path;
                self.handle(EventType::DroppedFile, zero, Some(path));
                proof {
                    Self::lemma_steps_one(
                        old(self).table(),
                        q0,
                        self.queue(),
                        (EventType::DroppedFile, zero, Some(gpath)),
                    );
                }
            },
            RawEvent::HoveredFile(_) => {
                let ghost q0 = self.queue();
                self.handle(EventType::HoveredFile, zero, None);
                proof {
                    Self::lemma_steps_one(
                        old(self).table(),
                        q0,
                        self.queue(),
                        (EventType::HoveredFile, zero, None::<S>),
                    );
                }
            },
            RawEvent::HoveredFileCancelled => {
                let ghost q0 = self.queue();
                self.handle(EventType::HoveredFileCancelled, zero, None);
                proof {
                    Self::lemma_steps_one(
                        old(self).table(),
                        q0,
                        self.queue(),
                        (EventType::HoveredFileCancelled, zero, None::<S>),
                    );
                }
            },
            RawEvent::ReceivedCharacter(c) => {
                match &mut self.chars {
                    Some(buf) => {
                        buf.push(c);
                    },
                    None => {},
                }
            },
            RawEvent::Focused(gained) => {
                let t = if gained {
                    EventType::Focused
                } else {
                    EventType::UnFocused
                };
                let ghost q0 = self.queue();
                self.handle(t, zero, None);
                proof {
                    Self::lemma_steps_one(old(self).table(), q0, self.queue(), (t, zero, None::<S>));
                }
            },
            RawEvent::CursorMoved(p) => {
                let ghost q0 = self.queue();
                self.handle(EventType::MouseMoved, p, None);
                proof {
                    Self::lemma_steps_one(
                        old(self).table(),
                        q0,
                        self.queue(),
                        (EventType::MouseMoved, p, None::<S>),
                    );
                }
            },
            RawEvent::CursorEntered => {
                let ghost q0 = self.queue();
                self.handle(EventType::MouseEntered, zero, None);
                proof {
                    Self::lemma_steps_one(
                        old(self).table(),
                        q0,
                        self.queue(),
                        (EventType::MouseEntered, zero, None::<S>),
                    );
                }
            },
            RawEvent::CursorLeft => {
                let ghost q0 = self.queue();
                self.handle(EventType::MouseLeft, zero, None);
                proof {
                    Self::lemma_steps_one(
                        old(self).table(),
                        q0,
                        self.queue(),
                        (EventType::MouseLeft, zero, None::<S>),
                    );
                }
            },
            RawEvent::MouseWheel(p) => {
                let ghost q0 = self.queue();
                self.handle(EventType::MouseWheel, p, None);
                proof {
                    Self::lemma_steps_one(
                        old(self).table(),
                        q0,
                        self.queue(),
                        (EventType::MouseWheel, p, None::<S>),
                    );
                }
            },
            RawEvent::Refresh => {
                let ghost q0 = self.queue();
                self.handle(EventType::Refresh, zero, None);
                proof {
                    Self::lemma_steps_one(
                        old(self).table(),
                        q0,
                        self.queue(),
                        (EventType::Refresh, zero, None::<S>),
                    );
                }
            },
            RawEvent::Ignored => {},
        }
    }

    /// What one whole dispatch pass does: the raw events are dispatched in
    /// order, each from the state the previous one left behind.
    pub open spec fn pass_post(pre: Self, post: Self, raws: Seq<RawEvent<P, S>>) -> bool
        decreases raws.len(),
    {
        if raws.len() <= 0 {
            post == pre
        } else {
            exists|mid: Self|
                #[trigger] Self::dispatch_post(pre, mid, raws[0]) && mid.wf() && Self::pass_post(
                    mid,
                    post,
                    raws.skip(1),
                )
        }
    }

    proof fn lemma_pass_post_snoc(
        s0: Self,
        s1: Self,
        s2: Self,
        raws: Seq<RawEvent<P, S>>,
        e: RawEvent<P, S>,
    )
        requires
            Self::pass_post(s0, s1, raws),
            Self::dispatch_post(s1, s2, e),
            s2.wf(),
        ensures
            Self::pass_post(s0, s2, raws.push(e)),
        decreases raws.len(),
    {
        if raws.len() == 0 {
            assert(raws.push(e)[0] == e);
            assert(raws.push(e).skip(1) =~= Seq::<RawEvent<P, S>>::empty());
            assert(Self::pass_post(s2, s2, raws.push(e).skip(1)));
            assert(Self::dispatch_post(s0, s2, raws.push(e)[0]));
        } else {
            let mid = choose|mid: Self|
                #[trigger] Self::dispatch_post(s0, mid, raws[0]) && mid.wf() && Self::pass_post(
                    mid,
                    s1,
                    raws.skip(1),
                );
            Self::lemma_pass_post_snoc(mid, s1, s2, raws.skip(1), e);
            assert(raws.push(e).skip(1) =~= raws.skip(1).push(e));
            assert(raws.push(e)[0] == raws[0]);
            assert(Self::dispatch_post(s0, mid, raws.push(e)[0]));
        }
    }

    /// Run one dispatch pass over a batch of raw events that the feed has
    /// drained, dispatching each in order.
    pub fn fill_buffer(&mut self, pending: Vec<RawEvent<P, S>>)
        requires
            old(self).wf(),
        ensures
            final(self).wf(),
            Self::pass_post(*old(self), *final(self), pending@),
    {
        let ghost all = pending@;
        let mut rest = pending;
        let ghost done: int = 0;
        proof {
            assert(all.take(0) =~= Seq::<RawEvent<P, S>>::empty());
        }
        while rest.len() > 0
            invariant
                self.wf(),
                0 <= done <= all.len(),
                rest@ == all.skip(done),
                Self::pass_post(*old(self), *self, all.take(done)),
            decreases rest@.len(),
        {
            let e = rest.remove(0);
            proof {
                assert(e == all[done]);
            }
            let ghost mid_pre = *self;
            self.dispatch(e);
            proof {
                Self::lemma_pass_post_snoc(*old(self), mid_pre, *self, all.take(done), e);
                assert(all.take(done).push(e) =~= all.take(done + 1));
                assert(rest@ =~= all.skip(done + 1));
                done = done + 1;
            }
        }
        proof {
            assert(all.take(done) =~= all);
        }
    }

    /// What removing the most recently appended buffered value looks like:
    /// the table, recording state and origin are untouched; on an empty
    /// buffer nothing is returned.
    pub open spec fn pop_rel(pre: Self, post: Self, r: Option<E>) -> bool {
        &&& post.table() == pre.table()
        &&& post.recorded() == pre.recorded()
        &&& post.origin() == pre.origin()
        &&& if pre.queue().len() > 0 {
            &&& post.queue() == pre.queue().drop_last()
            &&& r == Some(pre.queue().last())
        } else {
            &&& post.queue() == pre.queue()
            &&& r is None
        }
    }

    /// Pull the next produced value. A non-empty buffer is drained from the
    /// back (most recently appended first); on an empty buffer one dispatch
    /// pass runs over the pending raw events first, and `None` is returned
    /// only if that pass produced nothing.
    pub fn next(&mut self, pending: Vec<RawEvent<P, S>>) -> (r: Option<E>)
        requires
            old(self).wf(),
        ensures
            final(self).wf(),
            old(self).queue().len() > 0 ==> Self::pop_rel(*old(self), *final(self), r),
            old(self).queue().len() == 0 ==> exists|mid: Self|
                #[trigger] Self::pass_post(*old(self), mid, pending@) && Self::pop_rel(
                    mid,
                    *final(self),
                    r,
                ),
    {
        if self.buffer.len() > 0 {
            self.buffer.pop()
        } else {
            self.fill_buffer(pending);
            let ghost mid = *self;
            let r = self.buffer.pop();
            proof {
                assert(Self::pass_post(*old(self), mid, pending@) && Self::pop_rel(
                    mid,
                    *self,
                    r,
                ));
            }
            r
        }
    }

    /// Silent miss: a consultation list none of whose descriptors is bound
    /// appends nothing to the buffer and raises nothing.
    pub proof fn lemma_silent_miss(
        table: Map<EventType, F>,
        pre: Seq<E>,
        post: Seq<E>,
        hs: Seq<(EventType, P, Option<S>)>,
    )
        requires
            Self::steps(table, pre, post, hs),
            forall|j: int| 0 <= j < hs.len() ==> !table.contains_key((#[trigger] hs[j]).0),
        ensures
            post == pre,
        decreases hs.len(),
    {
        if hs.len() > 0 {
            let mid = choose|mid: Seq<E>|
                #[trigger] Self::hit_step(table, pre, mid, hs[0]) && Self::steps(
                    table,
                    mid,
                    post,
                    hs.skip(1),
                );
            assert(mid == pre);
            assert(forall|j: int|
                0 <= j < hs.skip(1).len() ==> !table.contains_key((#[trigger] hs.skip(1)[j]).0));
            Self::lemma_silent_miss(table, pre, post, hs.skip(1));
        }
    }

    /// Bind/unbind round trip: inserting a binding and then removing it
    /// leaves a table in which the descriptor is unbound; if the descriptor
    /// was not bound before, the table is exactly what it was.
    pub proof fn lemma_bind_unbind_round_trip(
        table: Map<EventType, F>,
        typ: EventType,
        constructor: F,
    )
        ensures
            !table.insert(typ, constructor).remove(typ).contains_key(typ),
            table.insert(typ, constructor).remove(typ) == table.remove(typ),
            !table.contains_key(typ) ==> table.insert(typ, constructor).remove(typ) == table,
    {
        assert(table.insert(typ, constructor).remove(typ) =~= table.remove(typ));
        if !table.contains_key(typ) {
            assert(table.remove(typ) =~= table);
        }
    }

    /// The other half of the round trip: a consultation of a table in
    /// which the descriptor is unbound produces no value.
    pub proof fn lemma_unbound_dispatch_silent(
        table: Map<EventType, F>,
        typ: EventType,
        pre: Seq<E>,
        post: Seq<E>,
        pos: P,
        path: Option<S>,
    )
        requires
            !table.contains_key(typ),
            Self::hit_step(table, pre, post, (typ, pos, path)),
        ensures
            post == pre,
    {
    }

    /// Dispatch on a bound descriptor appends exactly one value, and that
    /// value is one the registered constructor can produce from the
    /// position and path of the hit.
    pub proof fn lemma_bound_dispatch_exact(
        table: Map<EventType, F>,
        typ: EventType,
        constructor: F,
        pre: Seq<E>,
        post: Seq<E>,
        pos: P,
        path: Option<S>,
    )
        requires
            Self::hit_step(table.insert(typ, constructor), pre, post, (typ, pos, path)),
        ensures
            post.len() == pre.len() + 1,
            post.drop_last() == pre,
            call_ensures(constructor, (pos, path), post.last()),
    {
    }

    /// Modifier-agnostic bind implies agnostic dispatch: once every one of
    /// the 16 expansions of a modifier-carrying descriptor is bound to the
    /// constructor, a hit on that descriptor under any modifier state
    /// appends a value the constructor can produce.
    pub proof fn lemma_agnostic_dispatch(
        table: Map<EventType, F>,
        typ: EventType,
        constructor: F,
        m: Modifiers,
        pre: Seq<E>,
        post: Seq<E>,
        pos: P,
        path: Option<S>,
    )
        requires
            typ.carries_modifiers(),
            forall|i: int|
                0 <= i < 16 ==> table.contains_key(#[trigger] typ.combo(i)) && table[typ.combo(i)]
                    == constructor,
            Self::hit_step(table, pre, post, (typ.spec_with_modifiers(m), pos, path)),
        ensures
            post.len() == pre.len() + 1,
            post.drop_last() == pre,
            call_ensures(constructor, (pos, path), post.last()),
    {
        crate::descriptor::lemma_modifier_combos_complete(typ);
        let i = choose|i: int|
            0 <= i < 16 && #[trigger] typ.combo(i) == typ.spec_with_modifiers(m);
        assert(table.contains_key(typ.combo(i)));
    }

    /// LIFO pull ordering: from a buffer holding exactly the values
    /// generated in the order first, second, third, three pulls return
    /// third, second, first, and leave the buffer empty.
    pub proof fn lemma_lifo_order(
        s0: Self,
        s1: Self,
        s2: Self,
        s3: Self,
        e1: E,
        e2: E,
        e3: E,
        r1: Option<E>,
        r2: Option<E>,
        r3: Option<E>,
    )
        requires
            s0.queue() == seq![e1, e2, e3],
            Self::pop_rel(s0, s1, r1),
            Self::pop_rel(s1, s2, r2),
            Self::pop_rel(s2, s3, r3),
        ensures
            r1 == Some(e3),
            r2 == Some(e2),
            r3 == Some(e1),
            s3.queue().len() == 0,
    {
        assert(seq![e1, e2, e3].drop_last() =~= seq![e1, e2]);
        assert(seq![e1, e2].drop_last() =~= seq![e1]);
        assert(seq![e1].drop_last() =~= Seq::<E>::empty());
    }

    /// Characters arriving while recording is inactive are not retained:
    /// dispatching any raw event from a state with no recording buffer
    /// leaves recording inactive.
    pub proof fn lemma_chars_dropped_when_inactive(pre: Self, post: Self, raw: RawEvent<P, S>)
        requires
            pre.recorded() is None,
            Self::dispatch_post(pre, post, raw),
        ensures
            post.recorded() is None,
    {
    }
}

} // verus!
