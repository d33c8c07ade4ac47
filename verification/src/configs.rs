//! Semantic actions, raw-input identifiers, and the key-binding map.
//!
//! A `RawInputContainer` names a physical input (a keyboard key or a pointer
//! button) by an embedder-chosen numeric code; an `InputMap` binds raw inputs
//! to semantic `ButtonAction`s. Loading a map never fails: when no parsed
//! configuration is available, the built-in default bindings are used.

use vstd::prelude::*;

verus! {

/// A semantic, device-independent user intent.
#[derive(Clone, Copy, Debug, PartialEq, Eq, Hash, Structural)]
pub enum ButtonAction {
    MoveLeft,
    MoveRight,
    MoveForward,
    MoveBackward,
    Jump,
    Crouch,
    Fire,
    SecondaryFire,
}

/// A physical input: a keyboard key or a pointer button, identified by an
/// embedder-chosen code. The default bindings use the `KEY_*` and `MOUSE_*`
/// constants below.
#[derive(Clone, Copy, Debug, PartialEq, Eq, Hash, Structural)]
pub enum RawInputContainer {
    KeyCode(u32),
    MouseButton(u32),
}

/// Key code of the W key in the default bindings.
pub const KEY_W: u32 = 87;

/// Key code of the A key in the default bindings.
pub const KEY_A: u32 = 65;

/// Key code of the S key in the default bindings.
pub const KEY_S: u32 = 83;

/// Key code of the D key in the default bindings.
pub const KEY_D: u32 = 68;

/// Key code of the space bar in the default bindings.
pub const KEY_SPACE: u32 = 32;

/// Key code of the left control key in the default bindings.
pub const KEY_LCONTROL: u32 = 17;

/// Button code of the left pointer button in the default bindings.
pub const MOUSE_LEFT: u32 = 0;

/// Button code of the right pointer button in the default bindings.
pub const MOUSE_RIGHT: u32 = 1;

/// A mapping from raw inputs to semantic actions. Many raw inputs may map
/// to the same action; one raw input maps to at most one action.
#[derive(Debug)]
pub struct InputMap {
    pub bindings: Vec<(RawInputContainer, ButtonAction)>,
}

impl InputMap {
    /// Whether raw input `r` is bound to action `a`.
    pub open spec fn binds(self, r: RawInputContainer, a: ButtonAction) -> bool {
        exists|i: int| 0 <= i < self.bindings@.len() && #[trigger] self.bindings@[i] == (r, a)
    }

    /// One raw input is bound to at most one action.
    pub open spec fn wf(self) -> bool {
        forall|i: int, j: int|
            0 <= i < j < self.bindings@.len() ==> (#[trigger] self.bindings@[i]).0 != (
            #[trigger] self.bindings@[j]).0
    }

    /// An empty map: nothing bound.
    pub fn new() -> (m: InputMap)
        ensures
            m.bindings@.len() == 0,
            m.wf(),
            forall|r: RawInputContainer, a: ButtonAction| !m.binds(r, a),
    {
        InputMap { bindings: Vec::new() }
    }

    /// The action bound to raw input `r`, if any.
    pub fn lookup(&self, r: RawInputContainer) -> (res: Option<ButtonAction>)
        ensures
            match res {
                Some(a) => self.binds(r, a),
                None => forall|a: ButtonAction| !self.binds(r, a),
            },
    {
        let n = self.bindings.len();
        let mut i: usize = 0;
        while i < n
            invariant
                n == self.bindings@.len(),
                0 <= i <= n,
                forall|j: int| 0 <= j < i ==> (#[trigger] self.bindings@[j]).0 != r,
            decreases n - i,
        {
            let (key, act) = self.bindings[i];
            if key == r {
                proof {
                    assert(self.bindings@[i as int] == (r, act));
                }
                return Some(act);
            }
            i = i + 1;
        }
        proof {
            assert forall|a: ButtonAction| !self.binds(r, a) by {
                if self.binds(r, a) {
                    let j = choose|j: int|
                        0 <= j < self.bindings@.len() && #[trigger] self.bindings@[j] == (r, a);
                    assert((self.bindings@[j]).0 != r);
                }
            }
        }
        None
    }

    /// Bind raw input `r` to action `a`, replacing any earlier binding of
    /// `r`; bindings of other raw inputs are untouched.
    pub fn insert_binding(&mut self, r: RawInputContainer, a: ButtonAction)
        requires
            old(self).wf(),
        ensures
            final(self).wf(),
            forall|x: ButtonAction| final(self).binds(r, x) <==> x == a,
            forall|r2: RawInputContainer, x: ButtonAction|
                r2 != r ==> (final(self).binds(r2, x) <==> old(self).binds(r2, x)),
    {
        let n = self.bindings.len();
        let mut i: usize = 0;
        let ghost pre = *self;
        while i < n
            invariant
                *self == pre,
                pre == *old(self),
                pre.wf(),
                n == self.bindings@.len(),
                0 <= i <= n,
                forall|j: int| 0 <= j < i ==> (#[trigger] self.bindings@[j]).0 != r,
            decreases n - i,
        {
            let (key, _) = self.bindings[i];
            if key == r {
                self.bindings.remove(i);
                self.bindings.push((r, a));
                proof {
                    lemma_replaced_binding(pre, *self, r, a, i as int);
                }
                return ;
            }
            i = i + 1;
        }
        self.bindings.push((r, a));
        proof {
            lemma_appended_binding(pre, *self, r, a);
        }
    }
}

/// After removing the one binding of `r` at index `i` and pushing `(r, a)`,
/// the map binds `r` to `a` alone and leaves every other raw input as it
/// was.
proof fn lemma_replaced_binding(
    pre: InputMap,
    post: InputMap,
    r: RawInputContainer,
    a: ButtonAction,
    i: int,
)
    requires
        pre.wf(),
        0 <= i < pre.bindings@.len(),
        (pre.bindings@[i]).0 == r,
        forall|j: int| 0 <= j < i ==> (#[trigger] pre.bindings@[j]).0 != r,
        post.bindings@ == pre.bindings@.remove(i).push((r, a)),
    ensures
        post.wf(),
        forall|x: ButtonAction| post.binds(r, x) <==> x == a,
        forall|r2: RawInputContainer, x: ButtonAction|
            r2 != r ==> (post.binds(r2, x) <==> pre.binds(r2, x)),
{
    let s = pre.bindings@;
    let t = post.bindings@;
    let m = s.len() - 1;
    assert(t.len() == s.len());
    assert forall|j: int| 0 <= j < m implies (#[trigger] t[j]).0 != r by {
        if j < i {
            assert(t[j] == s[j]);
        } else {
            assert(t[j] == s[j + 1]);
            assert((s[i]).0 == (s[j + 1]).0 ==> false);
        }
    }
    assert(t[m] == (r, a));
    assert(post.wf()) by {
        assert forall|j: int, k: int| 0 <= j < k < t.len() implies (#[trigger] t[j]).0 != (
        #[trigger] t[k]).0 by {
            if k < m {
                let js: int = if j < i { j } else { j + 1 };
                let ks: int = if k < i { k } else { k + 1 };
                assert(t[j] == s[js] && t[k] == s[ks]);
            } else {
                assert((t[j]).0 != r);
            }
        }
    }
    assert forall|x: ButtonAction| post.binds(r, x) <==> x == a by {
        if post.binds(r, x) {
            let j = choose|j: int| 0 <= j < t.len() && #[trigger] t[j] == (r, x);
            if j < m {
                assert((t[j]).0 != r);
            }
        }
        if x == a {
            assert(t[m] == (r, x));
        }
    }
    assert forall|r2: RawInputContainer, x: ButtonAction| r2 != r implies (post.binds(r2, x)
        <==> pre.binds(r2, x)) by {
        if post.binds(r2, x) {
            let j = choose|j: int| 0 <= j < t.len() && #[trigger] t[j] == (r2, x);
            if j < i {
                assert(s[j] == (r2, x));
            } else if j < m {
                assert(s[j + 1] == (r2, x));
            }
        }
        if pre.binds(r2, x) {
            let j = choose|j: int| 0 <= j < s.len() && #[trigger] s[j] == (r2, x);
            if j < i {
                assert(t[j] == (r2, x));
            } else {
                assert(j != i);
                assert(t[j - 1] == (r2, x));
            }
        }
    }
}

/// Pushing a binding of a raw input not yet bound binds it alone and leaves
/// every other raw input as it was.
proof fn lemma_appended_binding(pre: InputMap, post: InputMap, r: RawInputContainer, a: ButtonAction)
    requires
        pre.wf(),
        forall|j: int| 0 <= j < pre.bindings@.len() ==> (#[trigger] pre.bindings@[j]).0 != r,
        post.bindings@ == pre.bindings@.push((r, a)),
    ensures
        post.wf(),
        forall|x: ButtonAction| post.binds(r, x) <==> x == a,
        forall|r2: RawInputContainer, x: ButtonAction|
            r2 != r ==> (post.binds(r2, x) <==> pre.binds(r2, x)),
{
    let s = pre.bindings@;
    let t = post.bindings@;
    let m = s.len() as int;
    assert(t[m] == (r, a));
    assert(post.wf()) by {
        assert forall|j: int, k: int| 0 <= j < k < t.len() implies (#[trigger] t[j]).0 != (
        #[trigger] t[k]).0 by {
            assert(t[j] == s[j]);
            if k < m {
                assert(t[k] == s[k]);
            }
        }
    }
    assert forall|x: ButtonAction| post.binds(r, x) <==> x == a by {
        if post.binds(r, x) {
            let j = choose|j: int| 0 <= j < t.len() && #[trigger] t[j] == (r, x);
            if j < m {
                assert((s[j]).0 != r);
            }
        }
        if x == a {
            assert(t[m] == (r, x));
        }
    }
    assert forall|r2: RawInputContainer, x: ButtonAction| r2 != r implies (post.binds(r2, x)
        <==> pre.binds(r2, x)) by {
        if post.binds(r2, x) {
            let j = choose|j: int| 0 <= j < t.len() && #[trigger] t[j] == (r2, x);
            assert(j != m);
            assert(s[j] == (r2, x));
        }
        if pre.binds(r2, x) {
            let j = choose|j: int| 0 <= j < s.len() && #[trigger] s[j] == (r2, x);
            assert(t[j] == (r2, x));
        }
    }
}

/// The built-in default bindings: WASD movement, space and left control,
/// and the two pointer buttons.
pub open spec fn default_bindings() -> Seq<(RawInputContainer, ButtonAction)> {
    seq![
        (RawInputContainer::KeyCode(KEY_W), ButtonAction::MoveForward),
        (RawInputContainer::KeyCode(KEY_A), ButtonAction::MoveLeft),
        (RawInputContainer::KeyCode(KEY_S), ButtonAction::MoveBackward),
        (RawInputContainer::KeyCode(KEY_D), ButtonAction::MoveRight),
        (RawInputContainer::KeyCode(KEY_SPACE), ButtonAction::Jump),
        (RawInputContainer::KeyCode(KEY_LCONTROL), ButtonAction::Crouch),
        (RawInputContainer::MouseButton(MOUSE_LEFT), ButtonAction::Fire),
        (RawInputContainer::MouseButton(MOUSE_RIGHT), ButtonAction::SecondaryFire),
    ]
}

/// The built-in default input map.
pub fn get_default_input_map() -> (m: InputMap)
    ensures
        m.bindings@ == default_bindings(),
        m.wf(),
{
    let mut bindings: Vec<(RawInputContainer, ButtonAction)> = Vec::new();
    bindings.push((RawInputContainer::KeyCode(KEY_W), ButtonAction::MoveForward));
    bindings.push((RawInputContainer::KeyCode(KEY_A), ButtonAction::MoveLeft));
    bindings.push((RawInputContainer::KeyCode(KEY_S), ButtonAction::MoveBackward));
    bindings.push((RawInputContainer::KeyCode(KEY_D), ButtonAction::MoveRight));
    bindings.push((RawInputContainer::KeyCode(KEY_SPACE), ButtonAction::Jump));
    bindings.push((RawInputContainer::KeyCode(KEY_LCONTROL), ButtonAction::Crouch));
    bindings.push((RawInputContainer::MouseButton(MOUSE_LEFT), ButtonAction::Fire));
    bindings.push((RawInputContainer::MouseButton(MOUSE_RIGHT), ButtonAction::SecondaryFire));
    let m = InputMap { bindings };
    proof {
        assert(m.bindings@ =~= default_bindings());
    }
    m
}

/// Produce the input map for this process: the parsed configuration when
/// one is available, the built-in defaults otherwise. Loading never fails;
/// a missing or corrupt configuration (passed as `None`) falls back to the
/// defaults.
pub fn load_input_map(parsed: Option<InputMap>) -> (m: InputMap)
    ensures
        match parsed {
            Some(p) => m == p,
            None => m.bindings@ == default_bindings() && m.wf(),
        },
{
    match parsed {
        Some(p) => p,
        None => get_default_input_map(),
    }
}

} // verus!
