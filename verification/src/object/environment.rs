use crate::object::share;
use crate::object::Object;
use crate::object::ObjectView;
use std::rc::Rc;
use vstd::hash_map::StringHashMap;
use vstd::prelude::*;
use vstd::string::*;

verus! {

/// The content of one scope: what its names are bound to, the handle of the
/// scope around it, and whether it is the scope of a closure.
pub struct ScopeView {
    pub bindings: Map<Seq<char>, ObjectView>,
    pub outer: Option<nat>,
    pub closure: bool,
}

/// The content of an environment: its scopes by handle, the lines that the
/// program has printed, and the number of closures that were made in it.
pub struct EnvironmentView {
    pub scopes: Seq<ScopeView>,
    pub output: Seq<Seq<char>>,
    pub closures: nat,
}

impl EnvironmentView {
    /// An environment with one empty scope, the root, and nothing printed.
    pub open spec fn fresh() -> EnvironmentView {
        EnvironmentView {
            scopes: seq![ScopeView { bindings: Map::empty(), outer: None, closure: false }],
            output: Seq::empty(),
            closures: 0,
        }
    }

    /// What a name is bound to, seen from a scope: the binding of the scope
    /// itself, or else what the name is bound to seen from the scope around
    /// it.
    pub open spec fn lookup(self, scope: nat, name: Seq<char>) -> Option<ObjectView>
        decreases scope,
    {
        if scope >= self.scopes.len() {
            None
        } else if self.scopes[scope as int].bindings.contains_key(name) {
            Some(self.scopes[scope as int].bindings[name])
        } else {
            match self.scopes[scope as int].outer {
                Some(outer) => if outer < scope {
                    self.lookup(outer, name)
                } else {
                    None
                },
                None => None,
            }
        }
    }

    /// The environment after a name is bound in a scope: that scope's own
    /// binding is added or replaced, and no other scope changes.
    pub open spec fn bind(self, scope: nat, name: Seq<char>, value: ObjectView) -> EnvironmentView {
        EnvironmentView {
            scopes: self.scopes.update(
                scope as int,
                ScopeView {
                    bindings: self.scopes[scope as int].bindings.insert(name, value),
                    outer: self.scopes[scope as int].outer,
                    closure: self.scopes[scope as int].closure,
                },
            ),
            output: self.output,
            closures: self.closures,
        }
    }

    /// The environment with one more scope, empty, around which stands
    /// `outer`. Its handle is the number of scopes before.
    pub open spec fn enclose(self, outer: nat) -> EnvironmentView {
        EnvironmentView {
            scopes: self.scopes.push(
                ScopeView { bindings: Map::empty(), outer: Some(outer), closure: false },
            ),
            output: self.output,
            closures: self.closures,
        }
    }

    /// The environment with one more scope, the scope of a closure that is
    /// made inside `outer`.
    pub open spec fn enclose_closure(self, outer: nat) -> EnvironmentView {
        EnvironmentView {
            scopes: self.scopes.push(
                ScopeView { bindings: Map::empty(), outer: Some(outer), closure: true },
            ),
            output: self.output,
            closures: self.closures + 1,
        }
    }

    /// The environment after the scopes from handle `mark` on are given up,
    /// which happens where no closure was made since there were `since` of
    /// them: then no value holds a handle of those scopes. Where a closure
    /// was made, every scope stays.
    pub open spec fn released(self, mark: nat, since: nat) -> EnvironmentView {
        if self.closures == since && mark <= self.scopes.len() {
            EnvironmentView {
                scopes: self.scopes.subrange(0, mark as int),
                output: self.output,
                closures: self.closures,
            }
        } else {
            self
        }
    }

    /// The environment after the program has printed a line.
    pub open spec fn emit(self, line: Seq<char>) -> EnvironmentView {
        EnvironmentView {
            scopes: self.scopes,
            output: self.output.push(line),
            closures: self.closures,
        }
    }

    /// The environment with nothing printed.
    pub open spec fn silent(self) -> EnvironmentView {
        EnvironmentView { scopes: self.scopes, output: Seq::empty(), closures: self.closures }
    }
}

/// One scope: what its names are bound to, and the handle of the scope
/// around it.
struct Scope<'a> {
    table: StringHashMap<Rc<Object<'a>>>,
    outer: Option<usize>,
    closure: bool,
}

impl<'a> Scope<'a> {
    spec fn bindings(self) -> Map<Seq<char>, ObjectView> {
        Map::new(
            |name: Seq<char>| self.table@.contains_key(name),
            |name: Seq<char>| self.table@[name]@,
        )
    }

    spec fn content(self) -> ScopeView {
        ScopeView {
            bindings: self.bindings(),
            outer: match self.outer {
                Some(outer) => Some(outer as nat),
                None => None,
            },
            closure: self.closure,
        }
    }
}

/// The scopes of a running program and the lines it has printed. A scope is
/// known by its handle; the root scope has handle 0. Scopes are shared
/// through their handles: a closure holds the handle of a scope, and sees
/// what is bound there and around it later. The scopes of a block or a call
/// are given up at its end where no closure was made in it; where one was
/// made, they stay for as long as the environment does.
pub struct Environment<'a> {
    scopes: Vec<Scope<'a>>,
    output: Vec<String>,
    closures: usize,
}

impl<'a> View for Environment<'a> {
    type V = EnvironmentView;

    closed spec fn view(&self) -> EnvironmentView {
        EnvironmentView {
            scopes: Seq::new(self.scopes.len() as nat, |i: int| self.scopes[i].content()),
            output: Seq::new(self.output.len() as nat, |i: int| self.output[i]@),
            closures: self.closures as nat,
        }
    }
}

impl<'a> Environment<'a> {
    /// The handle of the root scope.
    pub const ROOT: usize = 0;

    /// What holds of every environment that this module hands out: there is
    /// a root scope, the scope around a scope is older than the scope
    /// itself, and there are no more closures than scopes.
    pub closed spec fn wf(&self) -> bool {
        &&& self.scopes.len() >= 1
        &&& self.closures <= self.scopes.len()
        &&& forall|i: int|
            0 <= i < self.scopes.len() ==> match (#[trigger] self.scopes[i]).outer {
                Some(outer) => outer < i,
                None => true,
            }
    }

    /// In a well-formed environment there is a root scope, and there are no
    /// more closures than scopes.
    pub proof fn lemma_has_root(&self)
        requires
            self.wf(),
        ensures
            self@.scopes.len() >= 1,
            self@.closures <= self@.scopes.len(),
    {
    }

    /// An environment with an empty root scope.
    pub fn new() -> (env: Environment<'a>)
        ensures
            env.wf(),
            env@ == EnvironmentView::fresh(),
    {
        let mut scopes: Vec<Scope<'a>> = Vec::new();
        scopes.push(Scope { table: StringHashMap::new(), outer: None, closure: false });
        let env = Environment { scopes, output: Vec::new(), closures: 0 };
        proof {
            assert(env.scopes[0].bindings() =~= Map::empty());
            assert(env@.scopes =~= EnvironmentView::fresh().scopes);
            assert(env@.output =~= EnvironmentView::fresh().output);
        }
        env
    }

    /// The number of scopes: the handles below it are the valid ones.
    pub fn scope_count(&self) -> (count: usize)
        ensures
            count == self@.scopes.len(),
    {
        self.scopes.len()
    }

    /// Makes an empty scope inside the scope `outer` and returns its handle.
    pub fn new_enclosed(&mut self, outer: usize) -> (scope: usize)
        requires
            old(self).wf(),
            outer < old(self)@.scopes.len(),
        ensures
            final(self).wf(),
            final(self)@ == old(self)@.enclose(outer as nat),
            scope == old(self)@.scopes.len(),
    {
        let scope = self.scopes.len();
        self.scopes.push(
            Scope { table: StringHashMap::new(), outer: Some(outer), closure: false },
        );
        proof {
            assert(self.scopes[scope as int].bindings() =~= Map::empty());
            assert(self@.scopes =~= old(self)@.enclose(outer as nat).scopes);
            assert(self@.output =~= old(self)@.output);
        }
        scope
    }

    /// Makes the scope of a closure inside the scope `outer` and returns its
    /// handle.
    pub fn new_closure_scope(&mut self, outer: usize) -> (scope: usize)
        requires
            old(self).wf(),
            outer < old(self)@.scopes.len(),
        ensures
            final(self).wf(),
            final(self)@ == old(self)@.enclose_closure(outer as nat),
            scope == old(self)@.scopes.len(),
    {
        let scope = self.scopes.len();
        self.scopes.push(
            Scope { table: StringHashMap::new(), outer: Some(outer), closure: true },
        );
        // There are fewer closures than scopes now, so the count cannot overflow.
        let scopes_now = self.scopes.len();
        assert(self.closures < scopes_now);
        self.closures = self.closures + 1;
        proof {
            assert(self.scopes[scope as int].bindings() =~= Map::empty());
            assert(self@.scopes =~= old(self)@.enclose_closure(outer as nat).scopes);
            assert(self@.output =~= old(self)@.output);
        }
        scope
    }

    /// The number of closures made so far.
    pub fn closure_count(&self) -> (count: usize)
        ensures
            count == self@.closures,
    {
        self.closures
    }

    /// Gives up the scopes from handle `mark` on, where no closure was made
    /// since there were `since` of them.
    pub fn release(&mut self, mark: usize, since: usize)
        requires
            old(self).wf(),
            1 <= mark <= old(self)@.scopes.len(),
            since <= mark,
        ensures
            final(self).wf(),
            final(self)@ == old(self)@.released(mark as nat, since as nat),
    {
        if self.closures == since {
            self.scopes.truncate(mark);
            proof {
                assert(self@.scopes =~= old(self)@.scopes.subrange(0, mark as int));
                assert(self@.output =~= old(self)@.output);
            }
        }
    }

    /// Looks a name up from a scope: in the scope itself, then in the scopes
    /// around it, from the inside out.
    pub fn get(&self, scope: usize, name: &str) -> (found: Option<Rc<Object<'a>>>)
        requires
            self.wf(),
            scope < self@.scopes.len(),
        ensures
            match self@.lookup(scope as nat, name@) {
                Some(value) => found is Some && found->0@ == value,
                None => found is None,
            },
    {
        let mut current = scope;
        loop
            invariant
                self.wf(),
                current < self.scopes.len(),
                self@.lookup(current as nat, name@) == self@.lookup(scope as nat, name@),
            decreases current,
        {
            match self.scopes[current].table.get(name) {
                Some(object) => {
                    return Some(share(object));
                },
                None => {
                    match self.scopes[current].outer {
                        Some(outer) => {
                            current = outer;
                        },
                        None => {
                            return None;
                        },
                    }
                },
            }
        }
    }

    /// Binds a name in a scope: in that scope's own table, whatever the
    /// scopes around it bind.
    pub fn set(&mut self, scope: usize, name: &str, obj: Rc<Object<'a>>)
        requires
            old(self).wf(),
            scope < old(self)@.scopes.len(),
        ensures
            final(self).wf(),
            final(self)@ == old(self)@.bind(scope as nat, name@, obj@),
    {
        let ghost before = self.scopes[scope as int];
        let target = &mut self.scopes[scope];
        target.table.insert(String::from_str(name), obj);
        proof {
            let after = self.scopes[scope as int];
            assert(after.bindings() =~= before.bindings().insert(name@, obj@));
            assert(self@.scopes =~= old(self)@.bind(scope as nat, name@, obj@).scopes);
            assert(self@.output =~= old(self)@.output);
        }
    }

    /// Records a line that the program prints.
    pub fn emit(&mut self, line: String)
        requires
            old(self).wf(),
        ensures
            final(self).wf(),
            final(self)@ == old(self)@.emit(line@),
    {
        self.output.push(line);
        proof {
            assert(self@.scopes =~= old(self)@.scopes);
            assert(self@.output =~= old(self)@.emit(line@).output);
        }
    }

    /// Hands over the lines printed so far, and forgets them.
    pub fn take_output(&mut self) -> (lines: Vec<String>)
        requires
            old(self).wf(),
        ensures
            final(self).wf(),
            final(self)@ == old(self)@.silent(),
            lines@.len() == old(self)@.output.len(),
            forall|i: int| 0 <= i < lines@.len() ==> lines@[i]@ == old(self)@.output[i],
    {
        let mut lines: Vec<String> = Vec::new();
        std::mem::swap(&mut lines, &mut self.output);
        proof {
            assert(self@.scopes =~= old(self)@.scopes);
            assert(self@.output =~= Seq::<Seq<char>>::empty());
        }
        lines
    }
}

} // verus!
