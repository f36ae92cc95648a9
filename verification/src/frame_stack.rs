//! The scope tree: one `Frame` per lexical function scope, arranged in a tree
//! whose shape is fixed by the first analyzer pass and replayed by every later
//! pass through the cursor protocol (`reset` / `enter` / `exit`).
use vstd::prelude::*;

verus! {

/// One lexical scope: an ordered list of variable slot names.
/// The slot index of a name is its offset inside the runtime call frame.
pub struct Frame {
    pub var_offsets: Vec<String>,
}

impl Frame {
    /// A fresh frame holds the single reserved slot `this` at index 0.
    pub fn new() -> (f: Frame)
        ensures
            f.var_offsets@.len() == 1,
            f.var_offsets@[0]@ == "this"@,
    {
        let mut v: Vec<String> = Vec::new();
        v.push(String::from_str("this"));
        Frame { var_offsets: v }
    }
}

/// Tree edges of one frame: its parent id and its child ids in creation order.
/// The root is its own parent; that self-loop marks it as the root.
#[derive(Debug, PartialEq, Eq)]
pub struct Link {
    pub children: Vec<usize>,
    pub parent: usize,
}

/// Where a name was resolved: how many parent hops away, at which slot,
/// and in which frame.
#[derive(Debug, PartialEq, Eq, Clone, Copy)]
pub struct VarDescr {
    pub frame_offset: usize,
    pub var_offset: usize,
    pub frame_id: usize,
}

/// The frame-stack tree with its traversal cursor (`cur_frame`) and the
/// `next_frame` hint naming the frame the next `enter` descends into
/// (0 stands for "none": entering it parks the cursor back at the root).
pub struct FrameStackTree {
    pub frames: Vec<Frame>,
    pub links: Vec<Link>,
    pub cur_frame: usize,
    pub next_frame: usize,
}

/// First slot index holding `name` in `slots`, scanning from `i` on.
pub open spec fn slot_index_from(slots: Seq<String>, name: Seq<char>, i: int) -> Option<int>
    decreases slots.len() - i,
{
    if i < 0 || i >= slots.len() {
        None
    } else if slots[i]@ == name {
        Some(i)
    } else {
        slot_index_from(slots, name, i + 1)
    }
}

/// First slot index holding `name`, or `None` when the frame lacks it.
pub open spec fn slot_index(slots: Seq<String>, name: Seq<char>) -> Option<int> {
    slot_index_from(slots, name, 0)
}

/// What declaring `name` leaves a frame's slot list as: unchanged when the
/// name is already a slot, extended by one slot at the end otherwise.
pub open spec fn put_slot(slots: Seq<String>, name: String) -> Seq<String> {
    if slot_index(slots, name@) is Some {
        slots
    } else {
        slots.push(name)
    }
}

/// First position of `x` in `s`, scanning from `i` on.
pub open spec fn pos_of_from(s: Seq<usize>, x: usize, i: int) -> Option<int>
    decreases s.len() - i,
{
    if i < 0 || i >= s.len() {
        None
    } else if s[i] == x {
        Some(i)
    } else {
        pos_of_from(s, x, i + 1)
    }
}

impl FrameStackTree {
    /// Shape of a well-formed tree: parallel `frames`/`links`, the root's
    /// self-loop at 0, every other parent strictly below its child, child
    /// lists increasing and mutually consistent with the parent field,
    /// and the cursor and hint in range (the hint may also be the
    /// not-yet-created frame 1 right after `new` or `reset`).
    pub open spec fn wf(&self) -> bool {
        let n = self.links@.len() as int;
        &&& self.frames@.len() == n
        &&& 1 <= n <= 0xFFFF_FFFFint
        &&& self.links@[0].parent == 0
        &&& forall|i: int| 1 <= i < n ==> (#[trigger] self.links@[i].parent) < i
        &&& forall|i: int, j: int|
            0 <= i < n && 0 <= j < self.links@[i].children@.len() ==> i
                < (#[trigger] self.links@[i].children@[j]) < n && self.links@[self.links@[i].children@[j] as int].parent == i
        &&& forall|i: int, j1: int, j2: int|
            0 <= i < n && 0 <= j1 < j2 < self.links@[i].children@.len()
                ==> (#[trigger] self.links@[i].children@[j1]) < (#[trigger] self.links@[i].children@[j2])
        &&& forall|c: int|
            1 <= c < n ==> (#[trigger] self.links@[c].parent) < n && self.links@[self.links@[c].parent as int].children@.contains(
                c as usize,
            )
        &&& self.cur_frame < n
        &&& (self.next_frame < n || self.next_frame == 1)
    }

    /// The frame an `enter` on `f` moves the hint to: `f`'s first child, or 0.
    pub open spec fn first_child_or_zero(links: Seq<Link>, f: int) -> usize {
        if 0 <= f < links.len() && links[f].children@.len() > 0 {
            links[f].children@[0]
        } else {
            0
        }
    }

    /// The frame an `exit` from `f` moves the hint to: the sibling created
    /// right after `f`, or 0 when `f` was its parent's last child.
    pub open spec fn next_sibling_or_zero(links: Seq<Link>, f: int) -> usize {
        let p = links[f].parent as int;
        let ch = links[p].children@;
        match pos_of_from(ch, f as usize, 0) {
            Some(i) => if i + 1 < ch.len() {
                ch[i + 1]
            } else {
                0
            },
            None => 0,
        }
    }

    /// Resolution of `name` from frame `frame` upward: the nearest enclosing
    /// frame holding the name wins; `frame_offset` counts the parent hops
    /// taken from the cursor, starting at `hops`.
    pub open spec fn resolve_from(&self, frame: int, hops: int, name: Seq<char>) -> Option<
        VarDescr,
    >
        decreases frame,
    {
        if frame < 0 || frame >= self.frames@.len() || hops < 0 {
            None
        } else {
            match slot_index(self.frames@[frame].var_offsets@, name) {
                Some(off) => Some(
                    VarDescr {
                        frame_offset: hops as usize,
                        var_offset: off as usize,
                        frame_id: frame as usize,
                    },
                ),
                None => {
                    let p = self.links@[frame].parent as int;
                    if p >= frame {
                        None
                    } else {
                        self.resolve_from(p, hops + 1, name)
                    }
                },
            }
        }
    }

    /// The ancestor chain of `f`: its parent, grandparent, and so on,
    /// ending with the root frame 0 (empty for the root itself).
    pub open spec fn ancestor_chain(links: Seq<Link>, f: int) -> Seq<u32>
        decreases f,
    {
        if f <= 0 || f >= links.len() {
            Seq::empty()
        } else {
            let p = links[f].parent as int;
            if p >= f {
                Seq::empty()
            } else {
                seq![links[f].parent as u32] + Self::ancestor_chain(links, p)
            }
        }
    }

    /// A fresh tree: the root frame alone, cursor parked on it.
    pub fn new() -> (t: FrameStackTree)
        ensures
            t.wf(),
            t.frames@.len() == 1,
            t.frames@[0].var_offsets@.len() == 1,
            t.frames@[0].var_offsets@[0]@ == "this"@,
            t.links@.len() == 1,
            t.links@[0].children@.len() == 0,
            t.links@[0].parent == 0,
            t.cur_frame == 0,
            t.next_frame == 1,
    {
        let mut frames: Vec<Frame> = Vec::new();
        frames.push(Frame::new());
        let mut links: Vec<Link> = Vec::new();
        links.push(Link { children: Vec::new(), parent: 0 });
        FrameStackTree { frames, links, cur_frame: 0, next_frame: 1 }
    }

    /// The root (global) frame.
    pub fn root_frame(&self) -> (f: &Frame)
        requires
            self.wf(),
        ensures
            *f == self.frames@[0],
    {
        &self.frames[0]
    }

    /// The id of the frame the cursor is on.
    pub fn cur_frame(&self) -> (id: usize)
        ensures
            id == self.cur_frame,
    {
        self.cur_frame
    }

    /// All frames, id-indexed.
    pub fn frames(&self) -> (f: &Vec<Frame>)
        ensures
            *f == self.frames,
    {
        &self.frames
    }

    /// All tree edges, id-indexed.
    pub fn links(&self) -> (l: &Vec<Link>)
        ensures
            *l == self.links,
    {
        &self.links
    }

    /// Park the cursor at the root; the hint names the root's first child.
    pub fn reset(&mut self)
        requires
            old(self).wf(),
        ensures
            final(self).wf(),
            final(self).frames == old(self).frames,
            final(self).links == old(self).links,
            final(self).cur_frame == 0,
            final(self).next_frame == 1,
    {
        self.cur_frame = 0;
        self.next_frame = 1;
    }

    /// Frame ids from the cursor's parent up to and including the root.
    pub fn parents(&self) -> (r: Vec<u32>)
        requires
            self.wf(),
        ensures
            r@ == Self::ancestor_chain(self.links@, self.cur_frame as int),
    {
        let mut parents: Vec<u32> = Vec::new();
        let mut cur: usize = self.cur_frame;
        loop
            invariant
                self.wf(),
                cur < self.links@.len(),
                parents@ + Self::ancestor_chain(self.links@, cur as int) =~= Self::ancestor_chain(
                    self.links@,
                    self.cur_frame as int,
                ),
            decreases cur,
        {
            let parent = self.links[cur].parent;
            if parent == cur {
                proof {
                    assert(parents@ =~= parents@ + Self::ancestor_chain(
                        self.links@,
                        cur as int,
                    ));
                }
                return parents;
            } else {
                proof {
                    assert(Self::ancestor_chain(self.links@, cur as int) =~= seq![parent as u32]
                        + Self::ancestor_chain(self.links@, parent as int));
                    assert(parents@.push(parent as u32) + Self::ancestor_chain(
                        self.links@,
                        parent as int,
                    ) =~= parents@ + Self::ancestor_chain(self.links@, cur as int));
                }
                parents.push(parent as u32);
                cur = parent;
            }
        }
    }

    /// Descend into the hinted frame; the hint moves to its first child.
    pub fn enter(&mut self)
        requires
            old(self).wf(),
            old(self).next_frame < old(self).links@.len(),
        ensures
            final(self).wf(),
            final(self).frames == old(self).frames,
            final(self).links == old(self).links,
            final(self).cur_frame == old(self).next_frame,
            final(self).next_frame == Self::first_child_or_zero(
                old(self).links@,
                old(self).next_frame as int,
            ),
    {
        self.cur_frame = self.next_frame;
        let ch = &self.links[self.next_frame].children;
        self.next_frame = if ch.len() > 0 {
            ch[0]
        } else {
            0
        };
    }

    /// Ascend to the parent; the hint moves to the next sibling (or 0).
    pub fn exit(&mut self)
        requires
            old(self).wf(),
            old(self).cur_frame != 0,
        ensures
            final(self).wf(),
            final(self).frames == old(self).frames,
            final(self).links == old(self).links,
            final(self).cur_frame == old(self).links@[old(self).cur_frame as int].parent,
            final(self).next_frame == Self::next_sibling_or_zero(
                old(self).links@,
                old(self).cur_frame as int,
            ),
    {
        let parent = self.links[self.cur_frame].parent;
        let pos = pos_of(&self.links[parent].children, self.cur_frame);
        self.next_frame = match pos {
            Some(j) => {
                let n = self.links[parent].children.len();
                assert(j < n);
                if j + 1 < n {
                    self.links[parent].children[j + 1]
                } else {
                    0
                }
            },
            None => 0,
        };
        self.cur_frame = parent;
    }

    /// Append a fresh frame as the cursor's newest child and hint at it.
    pub fn add_child(&mut self)
        requires
            old(self).wf(),
            old(self).links@.len() < 0xFFFF_FFFFusize,
        ensures
            final(self).wf(),
            final(self).cur_frame == old(self).cur_frame,
            final(self).next_frame == old(self).links@.len(),
            final(self).frames@.len() == old(self).frames@.len() + 1,
            forall|i: int|
                0 <= i < old(self).frames@.len() ==> final(self).frames@[i] == old(
                    self,
                ).frames@[i],
            final(self).frames@.last().var_offsets@.len() == 1,
            final(self).frames@.last().var_offsets@[0]@ == "this"@,
            final(self).links@.len() == old(self).links@.len() + 1,
            forall|i: int|
                0 <= i < old(self).links@.len() && i != old(self).cur_frame ==> final(self).links@[i] == old(self).links@[i],
            final(self).links@.last().parent == old(self).cur_frame,
            final(self).links@.last().children@.len() == 0,
            final(self).links@[old(self).cur_frame as int].parent == old(self).links@[old(
                self,
            ).cur_frame as int].parent,
            final(self).links@[old(self).cur_frame as int].children@ == old(self).links@[old(
                self,
            ).cur_frame as int].children@.push(old(self).links@.len() as usize),
    {
        let new: usize = self.links.len();
        self.frames.push(Frame::new());
        self.links.push(Link { children: Vec::new(), parent: self.cur_frame });
        let mut cur_link = Link { children: Vec::new(), parent: 0 };
        // splice the cursor's link out, extend its child list, splice it back
        std::mem::swap(&mut cur_link, &mut self.links[self.cur_frame]);
        cur_link.children.push(new);
        std::mem::swap(&mut cur_link, &mut self.links[self.cur_frame]);
        self.next_frame = new;
        proof {
            let n = self.links@.len() as int;
            assert forall|c: int| 1 <= c < n implies (#[trigger] self.links@[c].parent) < n
                && self.links@[self.links@[c].parent as int].children@.contains(c as usize) by {
                if c < n - 1 {
                    let p = self.links@[c].parent as int;
                    assert(old(self).links@[p].children@.contains(c as usize));
                    let w = choose|w: int|
                        0 <= w < old(self).links@[p].children@.len() && old(
                            self,
                        ).links@[p].children@[w] == c as usize;
                    assert(self.links@[p].children@[w] == c as usize);
                } else {
                    assert(self.links@[self.links@[c].parent as int].children@.last() == c as usize);
                }
            }
        }
    }

    /// Resolve `name` against the cursor's frame and its ancestors.
    pub fn find_var(&mut self, name: &String) -> (r: Option<VarDescr>)
        requires
            old(self).wf(),
        ensures
            *final(self) == *old(self),
            r == old(self).resolve_from(old(self).cur_frame as int, 0, name@),
    {
        let mut frame_offset: usize = 0;
        let mut frame: usize = self.cur_frame;
        loop
            invariant
                self.wf(),
                self == old(self),
                frame < self.frames@.len(),
                frame_offset + frame <= old(self).cur_frame,
                self.resolve_from(frame as int, frame_offset as int, name@) == self.resolve_from(
                    old(self).cur_frame as int,
                    0,
                    name@,
                ),
            decreases frame + 1,
        {
            let var_offset = find_slot(&self.frames[frame].var_offsets, name);
            if let Some(off) = var_offset {
                return Some(
                    VarDescr { frame_offset: frame_offset, var_offset: off, frame_id: frame },
                );
            }
            let parent = self.links[frame].parent;
            if parent == frame {
                return None;
            }
            frame = parent;
            frame_offset = frame_offset + 1;
        }
    }

    /// Declare `name` in the cursor's frame; a second declaration of the
    /// same name leaves the frame unchanged.
    pub fn put_var(&mut self, name: &String)
        requires
            old(self).wf(),
        ensures
            final(self).wf(),
            final(self).links == old(self).links,
            final(self).cur_frame == old(self).cur_frame,
            final(self).next_frame == old(self).next_frame,
            final(self).frames@.len() == old(self).frames@.len(),
            forall|i: int|
                0 <= i < final(self).frames@.len() && i != old(self).cur_frame ==> final(self).frames@[i] == old(self).frames@[i],
            final(self).frames@[old(self).cur_frame as int].var_offsets@ == put_slot(
                old(self).frames@[old(self).cur_frame as int].var_offsets@,
                *name,
            ),
    {
        let cur = self.cur_frame;
        put_var_in(&mut self.frames, cur, name);
    }

    /// Declare `name` in the root frame; used for bare assignments that
    /// create globals.
    pub fn put_var_global(&mut self, name: &String)
        requires
            old(self).wf(),
        ensures
            final(self).wf(),
            final(self).links == old(self).links,
            final(self).cur_frame == old(self).cur_frame,
            final(self).next_frame == old(self).next_frame,
            final(self).frames@.len() == old(self).frames@.len(),
            forall|i: int|
                0 <= i < final(self).frames@.len() && i != 0 ==> final(self).frames@[i] == old(
                    self,
                ).frames@[i],
            final(self).frames@[0].var_offsets@ == put_slot(
                old(self).frames@[0].var_offsets@,
                *name,
            ),
    {
        put_var_in(&mut self.frames, 0, name);
    }

    /// Insert `name` at slot 1 of the cursor's frame, right after the
    /// reserved `this` slot, shifting the rest up; formal arguments are
    /// declared this way in order, which leaves them in reverse order with
    /// the last formal at slot 1 and `this` still at slot 0.
    pub fn put_arg(&mut self, name: String)
        requires
            old(self).wf(),
            old(self).frames@[old(self).cur_frame as int].var_offsets@.len() >= 1,
        ensures
            final(self).wf(),
            final(self).links == old(self).links,
            final(self).cur_frame == old(self).cur_frame,
            final(self).next_frame == old(self).next_frame,
            final(self).frames@.len() == old(self).frames@.len(),
            forall|i: int|
                0 <= i < final(self).frames@.len() && i != old(self).cur_frame ==> final(self).frames@[i] == old(self).frames@[i],
            final(self).frames@[old(self).cur_frame as int].var_offsets@ == old(
                self,
            ).frames@[old(self).cur_frame as int].var_offsets@.insert(1, name),
    {
        let cur = self.cur_frame;
        let mut f = Frame { var_offsets: Vec::new() };
        std::mem::swap(&mut f, &mut self.frames[cur]);
        f.var_offsets.insert(1, name);
        std::mem::swap(&mut f, &mut self.frames[cur]);
    }
}

/// Scan `s` for the first position holding `x`.
fn pos_of(s: &Vec<usize>, x: usize) -> (r: Option<usize>)
    ensures
        match r {
            Some(j) => j < s@.len() && s@[j as int] == x && pos_of_from(s@, x, 0) == Some(j as int),
            None => pos_of_from(s@, x, 0) is None,
        },
{
    let mut i: usize = 0;
    loop
        invariant
            0 <= i <= s@.len(),
            pos_of_from(s@, x, 0) == pos_of_from(s@, x, i as int),
        decreases s@.len() - i,
    {
        if i >= s.len() {
            return None;
        }
        if s[i] == x {
            return Some(i);
        }
        i = i + 1;
    }
}

/// Scan `slots` for `name`; the returned index is the first match.
fn find_slot(slots: &Vec<String>, name: &String) -> (r: Option<usize>)
    ensures
        match r {
            Some(i) => slot_index(slots@, name@) == Some(i as int),
            None => slot_index(slots@, name@) is None,
        },
{
    let mut i: usize = 0;
    loop
        invariant
            0 <= i <= slots@.len(),
            slot_index(slots@, name@) == slot_index_from(slots@, name@, i as int),
        decreases slots@.len() - i,
    {
        if i >= slots.len() {
            return None;
        }
        if slots[i] == *name {
            return Some(i);
        }
        i = i + 1;
    }
}

/// Append `name` to the slot list of frame `f` unless it is already a slot.
fn put_var_in(frames: &mut Vec<Frame>, f: usize, name: &String)
    requires
        f < old(frames)@.len(),
    ensures
        final(frames)@.len() == old(frames)@.len(),
        forall|i: int|
            0 <= i < final(frames)@.len() && i != f ==> final(frames)@[i] == old(frames)@[i],
        final(frames)@[f as int].var_offsets@ == put_slot(
            old(frames)@[f as int].var_offsets@,
            *name,
        ),
{
    let present = find_slot(&frames[f].var_offsets, name).is_some();
    if !present {
        let mut fr = Frame { var_offsets: Vec::new() };
        std::mem::swap(&mut fr, &mut frames[f]);
        fr.var_offsets.push(name.clone());
        std::mem::swap(&mut fr, &mut frames[f]);
    }
}

/// Where `s[w] == x`, the first position of `x` from `i` is defined and
/// no later than `w`.
proof fn lemma_pos_of_from_found(s: Seq<usize>, x: usize, i: int, w: int)
    requires
        0 <= i <= w < s.len(),
        s[w] == x,
    ensures
        match pos_of_from(s, x, i) {
            Some(p) => i <= p <= w && s[p] == x,
            None => false,
        },
    decreases w - i,
{
    if s[i] != x {
        lemma_pos_of_from_found(s, x, i + 1, w);
    }
}

/// Law: `put_var` is idempotent — declaring a name in a frame that already
/// holds it leaves the slot list unchanged, so two `var x;` statements in
/// one frame produce a single slot `x`.
pub proof fn lemma_put_slot_idempotent(slots: Seq<String>, name: String)
    ensures
        put_slot(put_slot(slots, name), name) == put_slot(slots, name),
{
    if slot_index(slots, name@) is None {
        lemma_slot_index_push(slots, name);
    }
}

/// Pushing `name` onto a slot list makes `slot_index` find it.
proof fn lemma_slot_index_push(slots: Seq<String>, name: String)
    ensures
        slot_index(slots.push(name), name@) is Some,
{
    lemma_slot_index_from_push(slots, name, 0);
}

proof fn lemma_slot_index_from_push(slots: Seq<String>, name: String, i: int)
    requires
        0 <= i <= slots.len(),
    ensures
        slot_index_from(slots.push(name), name@, i) is Some,
    decreases slots.len() - i,
{
    let s2 = slots.push(name);
    if i < slots.len() && s2[i]@ != name@ {
        lemma_slot_index_from_push(slots, name, i + 1);
    }
}

} // verus!
