//! The cyclable, tag-scoped layout selector.
//!
//! A [`LayoutCycler`] owns a fixed, non-empty list of generators and an
//! association of tags (virtual desktops, named by an opaque integer handle)
//! to cursors into that list. Each tag's cursor is independent: cycling one
//! tag forward or backward moves only that tag's cursor, wrapping circularly,
//! and a tag that was never cycled sits at cursor 0. A layout request
//! dispatches to the generator selected for the current tag.
//!
//! Every method holds the whole cycler exclusively (`&mut self` or `&self`)
//! for its full duration, so a host that shares one cycler between several
//! event handlers — a layout-request handler and two cycle keybinds,
//! possibly on different threads — must reach it through one mutual
//! exclusion primitive, taking the guard around each whole call.

use vstd::prelude::*;

use vstd::arithmetic::div_mod::lemma_add_mod_noop;
use vstd::arithmetic::div_mod::lemma_mod_add_multiples_vanish;
use vstd::arithmetic::div_mod::lemma_mod_self_0;
use vstd::arithmetic::div_mod::lemma_small_mod;

use crate::generators::LayoutGenerator;
use crate::generators::layout_shape;
use crate::tree::LayoutNode;
use crate::tree::leaf_count;

verus! {

/// First-match lookup of a tag in a cursor table.
pub open spec fn lookup(s: Seq<(u64, usize)>, tag: u64) -> Option<usize>
    decreases s.len(),
{
    if s.len() == 0 {
        None
    } else if s[0].0 == tag {
        Some(s[0].1)
    } else {
        lookup(s.drop_first(), tag)
    }
}

/// A found cursor is the one at the first index holding the tag.
proof fn lemma_lookup_found(s: Seq<(u64, usize)>, tag: u64, i: int)
    requires
        0 <= i < s.len(),
        s[i].0 == tag,
        forall|j: int| 0 <= j < i ==> s[j].0 != tag,
    ensures
        lookup(s, tag) == Some(s[i].1),
    decreases i,
{
    if i > 0 {
        lemma_lookup_found(s.drop_first(), tag, i - 1);
    }
}

/// A tag on no row is not found.
proof fn lemma_lookup_none(s: Seq<(u64, usize)>, tag: u64)
    requires
        forall|j: int| 0 <= j < s.len() ==> s[j].0 != tag,
    ensures
        lookup(s, tag) is None,
    decreases s.len(),
{
    if s.len() > 0 {
        lemma_lookup_none(s.drop_first(), tag);
    }
}

/// Overwriting the first row of a tag changes only that tag's cursor.
proof fn lemma_lookup_update(s: Seq<(u64, usize)>, i: int, v: usize)
    requires
        0 <= i < s.len(),
        forall|j: int| 0 <= j < i ==> s[j].0 != s[i].0,
    ensures
        lookup(s.update(i, (s[i].0, v)), s[i].0) == Some(v),
        forall|t: u64|
            t != s[i].0 ==> lookup(s.update(i, (s[i].0, v)), t) == lookup(s, t),
    decreases i,
{
    let tag = s[i].0;
    let s2 = s.update(i, (tag, v));
    if i == 0 {
        assert(s2[0] == (tag, v));
        assert(lookup(s2, tag) == Some(v));
        assert forall|t: u64| t != tag implies lookup(s2, t) == lookup(s, t) by {
            assert(s2.drop_first() =~= s.drop_first());
            assert(lookup(s2, t) == lookup(s2.drop_first(), t));
            assert(lookup(s, t) == lookup(s.drop_first(), t));
        }
    } else {
        assert(s2[0] == s[0]);
        assert(s2.drop_first() =~= s.drop_first().update(i - 1, (tag, v)));
        assert(s.drop_first()[i - 1] == s[i]);
        assert forall|j: int| 0 <= j < i - 1 implies (#[trigger] s.drop_first()[j]).0 != s
            .drop_first()[i - 1].0 by {
            assert(s.drop_first()[j] == s[j + 1]);
        }
        lemma_lookup_update(s.drop_first(), i - 1, v);
        assert(s[0].0 != tag);
        assert(lookup(s2, tag) == lookup(s2.drop_first(), tag));
        assert forall|t: u64| t != tag implies lookup(s2, t) == lookup(s, t) by {
            if s[0].0 != t {
                assert(lookup(s2, t) == lookup(s2.drop_first(), t));
                assert(lookup(s, t) == lookup(s.drop_first(), t));
                assert(lookup(s.drop_first().update(i - 1, (tag, v)), t) == lookup(
                    s.drop_first(),
                    t,
                ));
            }
        }
    }
}

/// Appending a row for an absent tag sets that tag's cursor and no other.
proof fn lemma_lookup_push(s: Seq<(u64, usize)>, tag: u64, v: usize)
    requires
        lookup(s, tag) is None,
    ensures
        lookup(s.push((tag, v)), tag) == Some(v),
        forall|t: u64| t != tag ==> lookup(s.push((tag, v)), t) == lookup(s, t),
    decreases s.len(),
{
    let s2 = s.push((tag, v));
    if s.len() == 0 {
        assert(s2[0] == (tag, v));
        assert(lookup(s2, tag) == Some(v));
        assert forall|t: u64| t != tag implies lookup(s2, t) == lookup(s, t) by {
            assert(lookup(s2, t) == lookup(s2.drop_first(), t));
            assert(s2.drop_first().len() == 0);
            assert(lookup(s2.drop_first(), t) is None);
            assert(lookup(s, t) is None);
        }
    } else {
        assert(s2[0] == s[0]);
        assert(s2.drop_first() =~= s.drop_first().push((tag, v)));
        assert(s[0].0 != tag);
        assert(lookup(s.drop_first(), tag) is None);
        lemma_lookup_push(s.drop_first(), tag, v);
        assert(lookup(s2, tag) == lookup(s2.drop_first(), tag));
        assert forall|t: u64| t != tag implies lookup(s2, t) == lookup(s, t) by {
            if s[0].0 != t {
                assert(lookup(s2, t) == lookup(s2.drop_first(), t));
                assert(lookup(s, t) == lookup(s.drop_first(), t));
                assert(lookup(s.drop_first().push((tag, v)), t) == lookup(s.drop_first(), t));
            }
        }
    }
}

/// A cursor found in a table bounded by `bound` is below `bound`.
proof fn lemma_lookup_bounded(s: Seq<(u64, usize)>, tag: u64, bound: int)
    requires
        forall|j: int| 0 <= j < s.len() ==> (#[trigger] s[j]).1 < bound,
    ensures
        lookup(s, tag) matches Some(v) ==> (v as int) < bound,
    decreases s.len(),
{
    if s.len() > 0 {
        lemma_lookup_bounded(s.drop_first(), tag, bound);
    }
}

/// The cursor one step forward of `c`, wrapping at `len`.
pub open spec fn next_cursor(c: int, len: int) -> int {
    (c + 1) % len
}

/// The cursor one step backward of `c`, wrapping at `len`.
pub open spec fn prev_cursor(c: int, len: int) -> int {
    (c + len - 1) % len
}

/// The error of constructing a cycler without generators.
#[derive(Clone, Copy, PartialEq, Eq, Structural, Debug)]
pub enum ConfigError {
    EmptyGenerators,
}

/// The stateful, tag-scoped selector over a fixed generator list.
pub struct LayoutCycler {
    /// The generator list, fixed at construction; never empty.
    pub generators: Vec<LayoutGenerator>,
    /// First-match rows of (tag, cursor); a tag without a row sits at 0.
    pub cursors: Vec<(u64, usize)>,
    /// The tag that layout requests and tree ids address.
    pub current_tag: Option<u64>,
}

impl LayoutCycler {
    /// How many generators the cycler owns.
    pub open spec fn gen_count(self) -> nat {
        self.generators@.len()
    }

    /// Whether `tag` has a cursor row of its own.
    pub open spec fn has_tag(self, tag: u64) -> bool {
        lookup(self.cursors@, tag) is Some
    }

    /// The cursor of `tag`: its row's value, or 0 for an unseen tag.
    pub open spec fn cursor_of(self, tag: u64) -> int {
        match lookup(self.cursors@, tag) {
            Some(c) => c as int,
            None => 0,
        }
    }

    /// Well-formedness: at least one generator, every stored cursor in range.
    pub open spec fn wf(self) -> bool {
        &&& self.generators@.len() > 0
        &&& forall|j: int|
            0 <= j < self.cursors@.len() ==> (#[trigger] self.cursors@[j]).1
                < self.generators@.len()
    }

    /// Builds a cycler over `generators`; an empty list is a configuration
    /// error and nothing else is.
    pub fn new(generators: Vec<LayoutGenerator>) -> (r: Result<LayoutCycler, ConfigError>)
        ensures
            generators@.len() == 0 <==> r is Err,
            r matches Err(e) ==> e == ConfigError::EmptyGenerators,
            r matches Ok(c) ==> {
                &&& c.wf()
                &&& c.generators@ == generators@
                &&& c.current_tag is None
                &&& forall|t: u64| !c.has_tag(t) && c.cursor_of(t) == 0
            },
    {
        if generators.len() == 0 {
            Err(ConfigError::EmptyGenerators)
        } else {
            let c = LayoutCycler { generators, cursors: Vec::new(), current_tag: None };
            proof {
                assert forall|t: u64| !c.has_tag(t) && c.cursor_of(t) == 0 by {
                    assert(c.cursors@.len() == 0);
                }
            }
            Ok(c)
        }
    }

    /// Sets the tag that subsequent layout requests and tree ids address.
    pub fn set_current_tag(&mut self, tag: u64)
        ensures
            final(self).current_tag == Some(tag),
            final(self).generators@ == old(self).generators@,
            final(self).cursors@ == old(self).cursors@,
            old(self).wf() ==> final(self).wf(),
    {
        self.current_tag = Some(tag);
    }

    /// Moves `tag`'s cursor one step forward, wrapping past the end of the
    /// generator list. No other tag's cursor moves.
    pub fn cycle_layout_forward(&mut self, tag: u64)
        requires
            old(self).wf(),
        ensures
            final(self).wf(),
            final(self).generators@ == old(self).generators@,
            final(self).current_tag == old(self).current_tag,
            final(self).has_tag(tag),
            final(self).cursor_of(tag) == next_cursor(
                old(self).cursor_of(tag),
                old(self).gen_count() as int,
            ),
            forall|t: u64|
                t != tag ==> final(self).cursor_of(t) == old(self).cursor_of(t)
                    && final(self).has_tag(t) == old(self).has_tag(t),
    {
        let len = self.generators.len();
        match find_tag(&self.cursors, tag) {
            Some(i) => {
                let c = self.cursors[i].1;
                let nc = if c + 1 == len {
                    0
                } else {
                    c + 1
                };
                self.cursors.set(i, (tag, nc));
                proof {
                    lemma_lookup_found(old(self).cursors@, tag, i as int);
                    lemma_lookup_update(old(self).cursors@, i as int, nc);
                    if c + 1 == len {
                        lemma_mod_self_0(len as int);
                    } else {
                        lemma_small_mod((c + 1) as nat, len as nat);
                    }
                }
            },
            None => {
                let nc = if len == 1 {
                    0
                } else {
                    1
                };
                self.cursors.push((tag, nc));
                proof {
                    lemma_lookup_none(old(self).cursors@, tag);
                    lemma_lookup_push(old(self).cursors@, tag, nc);
                    if len == 1 {
                        lemma_mod_self_0(1);
                    } else {
                        lemma_small_mod(1, len as nat);
                    }
                }
            },
        }
    }

    /// Moves `tag`'s cursor one step backward, wrapping past the start of
    /// the generator list. No other tag's cursor moves.
    pub fn cycle_layout_backward(&mut self, tag: u64)
        requires
            old(self).wf(),
        ensures
            final(self).wf(),
            final(self).generators@ == old(self).generators@,
            final(self).current_tag == old(self).current_tag,
            final(self).has_tag(tag),
            final(self).cursor_of(tag) == prev_cursor(
                old(self).cursor_of(tag),
                old(self).gen_count() as int,
            ),
            forall|t: u64|
                t != tag ==> final(self).cursor_of(t) == old(self).cursor_of(t)
                    && final(self).has_tag(t) == old(self).has_tag(t),
    {
        let len = self.generators.len();
        match find_tag(&self.cursors, tag) {
            Some(i) => {
                let c = self.cursors[i].1;
                let pc = if c == 0 {
                    len - 1
                } else {
                    c - 1
                };
                self.cursors.set(i, (tag, pc));
                proof {
                    lemma_lookup_found(old(self).cursors@, tag, i as int);
                    lemma_lookup_update(old(self).cursors@, i as int, pc);
                    if c == 0 {
                        lemma_small_mod((len - 1) as nat, len as nat);
                    } else {
                        lemma_mod_add_multiples_vanish(c - 1, len as int);
                        lemma_small_mod((c - 1) as nat, len as nat);
                    }
                }
            },
            None => {
                let pc = len - 1;
                self.cursors.push((tag, pc));
                proof {
                    lemma_lookup_none(old(self).cursors@, tag);
                    lemma_lookup_push(old(self).cursors@, tag, pc);
                    lemma_small_mod((len - 1) as nat, len as nat);
                }
            },
        }
    }

    /// Computes the layout tree for `window_count` windows with the
    /// generator selected for the current tag. Pure: no cursor moves.
    pub fn layout(&self, window_count: u32) -> (r: LayoutNode)
        requires
            self.wf(),
            self.current_tag is Some,
        ensures
            r.shape() == layout_shape(
                self.generators@[self.cursor_of(self.current_tag->0)],
                window_count as nat,
            ),
            leaf_count(r.shape()) == window_count as nat,
    {
        let idx = self.current_cursor();
        let g = self.generators[idx];
        g.layout(window_count)
    }

    /// An identifier of the layout selected for the current tag: its cursor
    /// index. Equal (tag, cursor) states yield equal identifiers, and any
    /// move of the current tag's cursor yields a different one.
    pub fn current_tree_id(&self) -> (r: usize)
        requires
            self.wf(),
            self.current_tag is Some,
        ensures
            r == self.cursor_of(self.current_tag->0),
    {
        self.current_cursor()
    }

    /// The in-range cursor of the current tag.
    fn current_cursor(&self) -> (r: usize)
        requires
            self.wf(),
            self.current_tag is Some,
        ensures
            r == self.cursor_of(self.current_tag->0),
            r < self.gen_count(),
    {
        let tag = match self.current_tag {
            Some(t) => t,
            None => 0,
        };
        match find_tag(&self.cursors, tag) {
            Some(i) => {
                proof {
                    lemma_lookup_found(self.cursors@, tag, i as int);
                }
                self.cursors[i].1
            },
            None => {
                proof {
                    lemma_lookup_none(self.cursors@, tag);
                }
                0
            },
        }
    }
}

/// The index of the first row holding `tag`, if any.
fn find_tag(cursors: &Vec<(u64, usize)>, tag: u64) -> (r: Option<usize>)
    ensures
        match r {
            Some(i) => i < cursors@.len() && cursors@[i as int].0 == tag && forall|j: int|
                0 <= j < i ==> cursors@[j].0 != tag,
            None => forall|j: int| 0 <= j < cursors@.len() ==> cursors@[j].0 != tag,
        },
{
    let mut i: usize = 0;
    while i < cursors.len()
        invariant
            i <= cursors@.len(),
            forall|j: int| 0 <= j < i ==> cursors@[j].0 != tag,
        decreases cursors@.len() - i,
    {
        if cursors[i].0 == tag {
            return Some(i);
        }
        i = i + 1;
    }
    None
}

/// Any well-formed cycler — in particular one reached by any sequence of
/// forward and backward cycles — keeps every tag's cursor inside the
/// generator list.
pub proof fn lemma_cursor_in_range(c: LayoutCycler, tag: u64)
    requires
        c.wf(),
    ensures
        0 <= c.cursor_of(tag) < c.gen_count(),
{
    lemma_lookup_bounded(c.cursors@, tag, c.generators@.len() as int);
}

/// The cursor after `k` forward cycles from `c` over `len` generators.
pub open spec fn cursor_after_forward(c: int, len: int, k: nat) -> int
    decreases k,
{
    if k == 0 {
        c
    } else {
        next_cursor(cursor_after_forward(c, len, (k - 1) as nat), len)
    }
}

/// The cursor after `k` backward cycles from `c` over `len` generators.
pub open spec fn cursor_after_backward(c: int, len: int, k: nat) -> int
    decreases k,
{
    if k == 0 {
        c
    } else {
        prev_cursor(cursor_after_backward(c, len, (k - 1) as nat), len)
    }
}

/// `k` forward cycles move a cursor to its start plus `k`, modulo the list.
pub proof fn lemma_cursor_after_forward(c: int, len: int, k: nat)
    requires
        0 <= c < len,
    ensures
        cursor_after_forward(c, len, k) == (c + k) % len,
    decreases k,
{
    if k == 0 {
        lemma_small_mod(c as nat, len as nat);
    } else {
        lemma_cursor_after_forward(c, len, (k - 1) as nat);
        lemma_add_mod_noop(c + k - 1, 1, len);
        lemma_small_mod(if len == 1 { 0nat } else { 1nat }, len as nat);
        if len == 1 {
            lemma_mod_self_0(1);
        }
    }
}

/// `k` backward cycles move a cursor to its start minus `k`, modulo the list.
pub proof fn lemma_cursor_after_backward(c: int, len: int, k: nat)
    requires
        0 <= c < len,
    ensures
        cursor_after_backward(c, len, k) == (c - k) % len,
    decreases k,
{
    if k == 0 {
        lemma_small_mod(c as nat, len as nat);
    } else {
        lemma_cursor_after_backward(c, len, (k - 1) as nat);
        lemma_add_mod_noop(c - k + 1, len - 1, len);
        lemma_small_mod((len - 1) as nat, len as nat);
        lemma_mod_add_multiples_vanish(c - k, len);
    }
}

/// Full-cycle identity: cycling a tag forward once per generator returns its
/// cursor to where it began; likewise backward.
pub proof fn lemma_full_cycle(c: int, len: int)
    requires
        0 <= c < len,
    ensures
        cursor_after_forward(c, len, len as nat) == c,
        cursor_after_backward(c, len, len as nat) == c,
    {
        lemma_cursor_after_forward(c, len, len as nat);
        lemma_cursor_after_backward(c, len, len as nat);
        lemma_mod_add_multiples_vanish(c, len);
        lemma_mod_add_multiples_vanish(c - len, len);
        lemma_small_mod(c as nat, len as nat);
    }

/// A tag never cycled sits at cursor 0, so a layout request for it uses the
/// first generator of the list.
pub proof fn lemma_untouched_tag_first_generator(c: LayoutCycler, tag: u64)
    requires
        c.wf(),
        !c.has_tag(tag),
    ensures
        c.cursor_of(tag) == 0,
        c.generators@[c.cursor_of(tag)] == c.generators@[0],
        forall|n: nat|
            layout_shape(#[trigger] c.generators@[c.cursor_of(tag)], n) == layout_shape(
                c.generators@[0],
                n,
            ),
{
}

/// With at least two generators, one cycle in either direction moves the
/// cursor — and with it the tag's tree id.
pub proof fn lemma_cycle_changes_cursor(c: int, len: int)
    requires
        0 <= c < len,
        len >= 2,
    ensures
        next_cursor(c, len) != c,
        prev_cursor(c, len) != c,
{
    if c + 1 == len {
        lemma_mod_self_0(len);
    } else {
        lemma_small_mod((c + 1) as nat, len as nat);
    }
    if c == 0 {
        lemma_small_mod((len - 1) as nat, len as nat);
    } else {
        lemma_mod_add_multiples_vanish(c - 1, len);
        lemma_small_mod((c - 1) as nat, len as nat);
    }
}

} // verus!
