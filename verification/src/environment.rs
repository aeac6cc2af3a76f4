//! Lexical scopes: a forest of frames, each a mapping from names to values
//! with a parent that was made before it.
use vstd::prelude::*;
use crate::expressions::{Literal, Value};
use crate::text::same_text;

verus! {

/// The mathematical content of a frame: its variables, its parent, and
/// whether a function was declared in it, which then holds on to it.
pub struct Scope {
    pub variables: Map<Seq<char>, Value>,
    pub parent: Option<usize>,
    pub captured: bool,
}

/// The frame, from `scope` outward, that holds `name`.
pub open spec fn holder(scopes: Seq<Scope>, scope: usize, name: Seq<char>) -> Option<usize>
    decreases scope,
{
    if scope >= scopes.len() {
        None
    } else if scopes[scope as int].variables.contains_key(name) {
        Some(scope)
    } else {
        match scopes[scope as int].parent {
            Some(parent) => if parent < scope {
                holder(scopes, parent, name)
            } else {
                None
            },
            None => None,
        }
    }
}

/// The value of `name` as seen from `scope`: that in the nearest frame, from
/// `scope` outward, that holds the name.
pub open spec fn lookup(scopes: Seq<Scope>, scope: usize, name: Seq<char>) -> Option<Value> {
    match holder(scopes, scope, name) {
        Some(frame) => Some(scopes[frame as int].variables[name]),
        None => None,
    }
}

/// The scopes after `name` is set to `value` in the frame `scope` itself.
pub open spec fn defined(
    scopes: Seq<Scope>,
    scope: usize,
    name: Seq<char>,
    value: Value,
) -> Seq<Scope> {
    scopes.update(
        scope as int,
        Scope {
            variables: scopes[scope as int].variables.insert(name, value),
            ..scopes[scope as int]
        },
    )
}

/// The scopes after `name` is set to `value` in the nearest frame, from
/// `scope` outward, that holds the name, or in `scope` itself if none does.
pub open spec fn bound(
    scopes: Seq<Scope>,
    scope: usize,
    name: Seq<char>,
    value: Value,
) -> Seq<Scope> {
    match holder(scopes, scope, name) {
        Some(frame) => defined(scopes, frame, name, value),
        None => defined(scopes, scope, name, value),
    }
}

/// The scopes with one more frame, empty, below `parent`.
pub open spec fn extended(scopes: Seq<Scope>, parent: Option<usize>) -> Seq<Scope> {
    scopes.push(Scope { variables: Map::empty(), parent, captured: false })
}

/// The scopes after a function was declared in the frame `scope`.
pub open spec fn captured(scopes: Seq<Scope>, scope: usize) -> Seq<Scope> {
    if scope < scopes.len() {
        scopes.update(scope as int, Scope { captured: true, ..scopes[scope as int] })
    } else {
        scopes
    }
}

/// The scopes without the frames that nothing holds on to any more when the
/// scope `above` comes back in force: the last frames, down to the first
/// one in which a function was declared, or to the frame after `above`.
pub open spec fn released(scopes: Seq<Scope>, above: usize) -> Seq<Scope>
    decreases scopes.len(),
{
    if scopes.len() > above + 1 && !scopes.last().captured {
        released(scopes.drop_last(), above)
    } else {
        scopes
    }
}

/// Every frame was made after its parent.
pub open spec fn ordered(scopes: Seq<Scope>) -> bool {
    forall|i: int|
        0 <= i < scopes.len() ==> match (#[trigger] scopes[i]).parent {
            Some(parent) => parent < i,
            None => true,
        }
}

/// One frame: its names, the value of each, its parent, and whether a
/// function was declared in it.
pub struct Frame {
    names: Vec<String>,
    values: Vec<Literal>,
    parent: Option<usize>,
    captured: bool,
}

impl Frame {
    /// Each name stands once, with its value.
    pub closed spec fn wf(&self) -> bool {
        &&& self.names@.len() == self.values@.len()
        &&& forall|i: int, j: int|
            0 <= i < j < self.names@.len() ==> (#[trigger] self.names@[i])@ != (
            #[trigger] self.names@[j])@
    }

    /// Whether the name stands at `i`.
    pub closed spec fn at(&self, name: Seq<char>, i: int) -> bool {
        0 <= i < self.names@.len() && self.names@[i]@ == name
    }

    pub closed spec fn view(&self) -> Scope {
        Scope {
            variables: Map::new(
                |name: Seq<char>| exists|i: int| self.at(name, i),
                |name: Seq<char>| self.values@[choose|i: int| self.at(name, i)]@,
            ),
            parent: self.parent,
            captured: self.captured,
        }
    }

    /// Where the name stands, if the frame holds it.
    fn find(&self, name: &str) -> (place: Option<usize>)
        requires
            self.wf(),
        ensures
            match place {
                Some(i) => self.at(name@, i as int) && self@.variables.contains_key(name@)
                    && self@.variables[name@] == self.values@[i as int]@,
                None => !self@.variables.contains_key(name@),
            },
    {
        let mut i: usize = 0;
        while i < self.names.len()
            invariant
                self.wf(),
                i <= self.names@.len(),
                forall|j: int| 0 <= j < i ==> !self.at(name@, j),
            decreases self.names@.len() - i,
        {
            if same_text(self.names[i].as_str(), name) {
                proof {
                    assert(self.at(name@, i as int));
                    let chosen = choose|j: int| self.at(name@, j);
                    assert(self.at(name@, chosen));
                    assert(chosen == i);
                }
                return Some(i);
            }
            i += 1;
        }
        proof {
            assert forall|j: int| !self.at(name@, j) by {}
        }
        None
    }

    /// Records that a function was declared in the frame.
    fn mark(&mut self)
        requires
            old(self).wf(),
        ensures
            final(self).wf(),
            final(self)@ == (Scope { captured: true, ..old(self)@ }),
    {
        self.captured = true;
        proof {
            assert forall|key: Seq<char>, j: int| self.at(key, j) == old(self).at(key, j) by {}
            assert(self@.variables =~= old(self)@.variables);
        }
    }

    /// Sets the name to the value.
    fn set(&mut self, name: &str, value: Literal)
        requires
            old(self).wf(),
        ensures
            final(self).wf(),
            final(self)@ == (Scope {
                variables: old(self)@.variables.insert(name@, value@),
                ..old(self)@
            }),
    {
        let ghost before = *self;
        match self.find(name) {
            Some(i) => {
                self.values[i] = value;
                proof {
                    assert forall|key: Seq<char>, j: int| self.at(key, j) == before.at(key, j) by {}
                    assert forall|key: Seq<char>| #[trigger]
                        self@.variables.contains_key(key) implies self@.variables[key]
                        == before@.variables.insert(name@, value@)[key] by {
                        let chosen = choose|j: int| self.at(key, j);
                        assert(self.at(key, chosen));
                        assert(before.at(key, chosen));
                        if key == name@ {
                            assert(chosen == i);
                        } else {
                            assert(chosen != i);
                            let earlier = choose|j: int| before.at(key, j);
                            assert(before.at(key, earlier));
                            assert(earlier == chosen);
                        }
                    }
                    assert forall|key: Seq<char>|
                        self@.variables.contains_key(key) == #[trigger] before@.variables.insert(
                            name@,
                            value@,
                        ).contains_key(key) by {
                        if key == name@ {
                            assert(self.at(key, i as int));
                            assert(before.at(key, i as int));
                        } else if before@.variables.contains_key(key) {
                            let earlier = choose|j: int| before.at(key, j);
                            assert(self.at(key, earlier));
                        } else if self@.variables.contains_key(key) {
                            let chosen = choose|j: int| self.at(key, j);
                            assert(before.at(key, chosen));
                        }
                    }
                    assert(self@.variables =~= before@.variables.insert(name@, value@));
                }
            },
            None => {
                self.names.push(name.to_owned());
                self.values.push(value);
                proof {
                    let last = before.names@.len() as int;
                    assert(self.at(name@, last));
                    assert forall|key: Seq<char>, j: int| self.at(key, j) == (before.at(key, j) || (j
                        == last && key == name@)) by {}
                    assert forall|i: int, j: int| 0 <= i < j < self.names@.len() implies (
                    #[trigger] self.names@[i])@ != (#[trigger] self.names@[j])@ by {
                        if j == last {
                            assert(!before.at(name@, i));
                        }
                    }
                    assert forall|key: Seq<char>| #[trigger]
                        self@.variables.contains_key(key) implies self@.variables[key]
                        == before@.variables.insert(name@, value@)[key] by {
                        let chosen = choose|j: int| self.at(key, j);
                        assert(self.at(key, chosen));
                        if key == name@ {
                            assert(!before.at(key, chosen));
                            assert(chosen == last);
                        } else {
                            assert(before.at(key, chosen));
                            let earlier = choose|j: int| before.at(key, j);
                            assert(before.at(key, earlier));
                            assert(self.at(key, earlier));
                            assert(earlier == chosen);
                        }
                    }
                    assert forall|key: Seq<char>|
                        self@.variables.contains_key(key) == #[trigger] before@.variables.insert(
                            name@,
                            value@,
                        ).contains_key(key) by {
                        if key == name@ {
                            assert(self.at(key, last));
                        } else if before@.variables.contains_key(key) {
                            let earlier = choose|j: int| before.at(key, j);
                            assert(self.at(key, earlier));
                        } else if self@.variables.contains_key(key) {
                            let chosen = choose|j: int| self.at(key, j);
                            assert(before.at(key, chosen));
                        }
                    }
                    assert(self@.variables =~= before@.variables.insert(name@, value@));
                }
            },
        }
    }
}

/// The scopes of a run: every frame that is there. A scope is named by the
/// number of its frame.
pub struct Environment {
    frames: Vec<Frame>,
}

impl Environment {
    pub closed spec fn view(&self) -> Seq<Scope> {
        self.frames@.map_values(|frame: Frame| frame@)
    }

    /// Every frame is well formed and was made after its parent.
    pub closed spec fn wf(&self) -> bool {
        &&& forall|i: int| 0 <= i < self.frames@.len() ==> (#[trigger] self.frames@[i]).wf()
        &&& ordered(self@)
    }

    /// An environment of one frame, which is empty and has no parent.
    pub fn new() -> (environment: Environment)
        ensures
            environment.wf(),
            environment@ == extended(Seq::empty(), None),
    {
        let mut frames: Vec<Frame> = Vec::new();
        let frame = Frame { names: Vec::new(), values: Vec::new(), parent: None, captured: false };
        proof {
            assert(frame@.variables =~= Map::empty());
        }
        frames.push(frame);
        let environment = Environment { frames };
        assert(environment@ =~= extended(Seq::empty(), None));
        environment
    }

    /// How many frames there are.
    pub fn len(&self) -> (count: usize)
        ensures
            count == self@.len(),
    {
        self.frames.len()
    }

    /// Makes a new, empty frame below `parent` and returns its number.
    pub fn nest(&mut self, parent: usize) -> (scope: usize)
        requires
            old(self).wf(),
            parent < old(self)@.len(),
        ensures
            final(self).wf(),
            scope == old(self)@.len(),
            final(self)@ == extended(old(self)@, Some(parent)),
    {
        let frame = Frame {
            names: Vec::new(),
            values: Vec::new(),
            parent: Some(parent),
            captured: false,
        };
        proof {
            assert(frame@.variables =~= Map::empty());
        }
        let scope = self.frames.len();
        self.frames.push(frame);
        assert(self@ =~= extended(old(self)@, Some(parent)));
        scope
    }

    /// Whether the frame `scope` itself holds the name.
    pub fn contains(&self, scope: usize, name: &str) -> (held: bool)
        requires
            self.wf(),
            scope < self@.len(),
        ensures
            held == self@[scope as int].variables.contains_key(name@),
    {
        self.frames[scope].find(name).is_some()
    }

    /// The frame, from `scope` outward, that holds the name.
    pub fn holder(&self, scope: usize, name: &str) -> (frame: Option<usize>)
        requires
            self.wf(),
        ensures
            frame == holder(self@, scope, name@),
            frame matches Some(found) ==> found < self@.len() && found <= scope
                && self@[found as int].variables.contains_key(name@),
    {
        let mut current = scope;
        loop
            invariant
                self.wf(),
                current <= scope,
                holder(self@, current, name@) == holder(self@, scope, name@),
            decreases current,
        {
            if current >= self.frames.len() {
                return None;
            }
            if self.frames[current].find(name).is_some() {
                return Some(current);
            }
            match self.frames[current].parent {
                Some(parent) => {
                    assert(self@[current as int].parent == Some(parent));
                    current = parent;
                },
                None => {
                    return None;
                },
            }
        }
    }

    /// The value of the name as seen from `scope`.
    pub fn get(&self, scope: usize, name: &str) -> (value: Option<&Literal>)
        requires
            self.wf(),
        ensures
            match value {
                Some(found) => lookup(self@, scope, name@) == Some(found@),
                None => lookup(self@, scope, name@) is None,
            },
    {
        match self.holder(scope, name) {
            Some(frame) => match self.frames[frame].find(name) {
                Some(place) => Some(&self.frames[frame].values[place]),
                None => None,
            },
            None => None,
        }
    }

    /// Sets the name in the frame `scope` itself, whatever the frames
    /// around it hold.
    pub fn define(&mut self, scope: usize, name: &str, value: Literal)
        requires
            old(self).wf(),
            scope < old(self)@.len(),
        ensures
            final(self).wf(),
            final(self)@ == defined(old(self)@, scope, name@, value@),
            final(self)@.len() == old(self)@.len(),
    {
        let ghost before = self@;
        self.frames[scope].set(name, value);
        assert(self@ =~= defined(before, scope, name@, value@));
    }

    /// Records that a function was declared in the frame `scope`.
    pub fn capture(&mut self, scope: usize)
        requires
            old(self).wf(),
            scope < old(self)@.len(),
        ensures
            final(self).wf(),
            final(self)@ == captured(old(self)@, scope),
            final(self)@.len() == old(self)@.len(),
    {
        let ghost before = self@;
        self.frames[scope].mark();
        assert(self@ =~= captured(before, scope));
    }

    /// Drops the frames that nothing holds on to any more when the scope
    /// `above` comes back in force.
    pub fn release(&mut self, above: usize)
        requires
            old(self).wf(),
        ensures
            final(self).wf(),
            final(self)@ == released(old(self)@, above),
            final(self)@.len() <= old(self)@.len(),
            old(self)@.len() > above ==> final(self)@.len() > above,
    {
        while self.frames.len() > 0 && self.frames.len() - 1 > above && !self.frames[self.frames.len()
            - 1].captured
            invariant
                self.wf(),
                released(self@, above) == released(old(self)@, above),
                self@.len() <= old(self)@.len(),
                old(self)@.len() > above ==> self@.len() > above,
            decreases self.frames@.len(),
        {
            let ghost before = self@;
            self.frames.pop();
            assert(self@ =~= before.drop_last());
        }
    }

    /// Sets the name in the nearest frame, from `scope` outward, that holds
    /// it, or in `scope` itself if none does.
    pub fn bind(&mut self, scope: usize, name: &str, value: Literal)
        requires
            old(self).wf(),
            scope < old(self)@.len(),
        ensures
            final(self).wf(),
            final(self)@ == bound(old(self)@, scope, name@, value@),
            final(self)@.len() == old(self)@.len(),
    {
        match self.holder(scope, name) {
            Some(frame) => self.define(frame, name, value),
            None => self.define(scope, name, value),
        }
    }
}

} // verus!
