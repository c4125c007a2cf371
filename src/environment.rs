use vstd::prelude::*;
use std::rc::Rc;
use crate::object::{Builtin, FunctionDefinition, Object, Term, same_word};

verus! {

/// The model of one scope: its enclosing scope, and its local bindings.
pub struct Frame {
    pub parent: Option<nat>,
    pub vars: Map<Seq<char>, Term>,
}

/// One scope of an environment: the index of its enclosing scope, and its local bindings
/// as name and value pairs with distinct names.
pub struct Scope {
    parent: Option<usize>,
    vars: Vec<(String, Object)>,
}

/// The scopes of one program run, addressed by index. Scope 0 is the root. A scope's parent
/// always has a smaller index, so every chain of parents ends. Scopes are never removed:
/// a closure holds the index of the scope it was built in.
pub struct Environment {
    scopes: Vec<Scope>,
}

pub open spec fn names_distinct(vars: Seq<(String, Object)>) -> bool {
    forall|i: int, j: int| 0 <= i < j < vars.len() ==> vars[i].0@ != vars[j].0@
}

pub open spec fn bindings(vars: Seq<(String, Object)>) -> Map<Seq<char>, Term> {
    Map::new(
        |k: Seq<char>| exists|i: int| 0 <= i < vars.len() && vars[i].0@ == k,
        |k: Seq<char>| vars[choose|i: int| 0 <= i < vars.len() && vars[i].0@ == k].1@,
    )
}

/// The value that `name` resolves to from scope `id`: the binding in the nearest scope of
/// the chain of parents that binds it.
pub open spec fn lookup(frames: Seq<Frame>, id: nat, name: Seq<char>) -> Option<Term>
    decreases id,
{
    if id >= frames.len() {
        None
    } else if frames[id as int].vars.contains_key(name) {
        Some(frames[id as int].vars[name])
    } else {
        match frames[id as int].parent {
            Some(p) => if p < id {
                lookup(frames, p, name)
            } else {
                None
            },
            None => None,
        }
    }
}

/// The closure that stands for a builtin operator.
pub open spec fn builtin_term(op: Builtin) -> Term {
    Term::Lambda { form: Seq::empty(), scope: 0, builtin: Some(op), loc: None }
}

/// The bindings of a root scope: each operator's name bound to its builtin closure.
pub open spec fn builtin_bindings() -> Map<Seq<char>, Term> {
    map![
        "+"@ => builtin_term(Builtin::Add),
        "-"@ => builtin_term(Builtin::Sub),
        "*"@ => builtin_term(Builtin::Mul),
        "/"@ => builtin_term(Builtin::Div),
        "%"@ => builtin_term(Builtin::Rem),
        ">"@ => builtin_term(Builtin::Gt),
        "<"@ => builtin_term(Builtin::Lt),
        "="@ => builtin_term(Builtin::Eq),
        ">="@ => builtin_term(Builtin::Ge),
        "<="@ => builtin_term(Builtin::Le),
        "/="@ => builtin_term(Builtin::Ne),
    ]
}

/// The frames after binding `name` to `v` in scope `id`, and only there.
pub open spec fn bind(frames: Seq<Frame>, id: nat, name: Seq<char>, v: Term) -> Seq<Frame> {
    frames.update(id as int, Frame { parent: frames[id as int].parent, vars: frames[id as int].vars.insert(name, v) })
}

fn builtin_closure(op: Builtin) -> (r: Object)
    ensures
        r@ == builtin_term(op),
{
    let r = Object::Lambda {
        value: FunctionDefinition { form: Rc::new(Vec::new()), scope: 0, builtin: Some(op) },
        loc: None,
    };
    assert(r@->Lambda_form =~= Seq::<Term>::empty());
    r
}

proof fn lemma_bindings_at(vars: Seq<(String, Object)>, i: int)
    requires
        names_distinct(vars),
        0 <= i < vars.len(),
    ensures
        bindings(vars).contains_key(vars[i].0@),
        bindings(vars)[vars[i].0@] == vars[i].1@,
{
    let k = vars[i].0@;
    assert(exists|j: int| 0 <= j < vars.len() && vars[j].0@ == k);
    let c = choose|j: int| 0 <= j < vars.len() && vars[j].0@ == k;
    assert(c == i);
}

proof fn lemma_bindings_replace(vars: Seq<(String, Object)>, i: int, nv: Seq<(String, Object)>)
    requires
        names_distinct(vars),
        0 <= i < vars.len(),
        nv.len() == vars.len(),
        nv[i].0@ == vars[i].0@,
        forall|j: int| 0 <= j < vars.len() && j != i ==> nv[j] == vars[j],
    ensures
        names_distinct(nv),
        bindings(nv) == bindings(vars).insert(vars[i].0@, nv[i].1@),
{
    let k0 = vars[i].0@;
    assert(names_distinct(nv)) by {
        assert forall|a: int, b: int| 0 <= a < b < nv.len() implies nv[a].0@ != nv[b].0@ by {
            assert(vars[a].0@ != vars[b].0@);
        }
    }
    assert forall|k: Seq<char>| #[trigger] bindings(nv).contains_key(k) == bindings(vars).insert(k0, nv[i].1@).contains_key(k) by {
        if exists|j: int| 0 <= j < vars.len() && vars[j].0@ == k {
            let j = choose|j: int| 0 <= j < vars.len() && vars[j].0@ == k;
            assert(nv[j].0@ == k);
        }
        if exists|j: int| 0 <= j < nv.len() && nv[j].0@ == k {
            let j = choose|j: int| 0 <= j < nv.len() && nv[j].0@ == k;
            assert(j != i ==> vars[j].0@ == k);
        }
        if k == k0 {
            assert(nv[i].0@ == k);
        }
    }
    assert forall|k: Seq<char>| bindings(nv).contains_key(k) implies #[trigger] bindings(nv)[k] == bindings(vars).insert(k0, nv[i].1@)[k] by {
        let c = choose|j: int| 0 <= j < nv.len() && nv[j].0@ == k;
        if k == k0 {
            assert(c == i);
        } else {
            assert(c != i);
            assert(vars[c].0@ == k);
            let d = choose|j: int| 0 <= j < vars.len() && vars[j].0@ == k;
            assert(d == c);
        }
    }
    assert(bindings(nv) =~= bindings(vars).insert(k0, nv[i].1@));
}

proof fn lemma_bindings_push(vars: Seq<(String, Object)>, nv: Seq<(String, Object)>)
    requires
        names_distinct(vars),
        nv.len() == vars.len() + 1,
        forall|j: int| 0 <= j < vars.len() ==> nv[j] == vars[j],
        forall|j: int| 0 <= j < vars.len() ==> vars[j].0@ != nv[vars.len() as int].0@,
    ensures
        names_distinct(nv),
        bindings(nv) == bindings(vars).insert(nv[vars.len() as int].0@, nv[vars.len() as int].1@),
{
    let n = vars.len() as int;
    let k0 = nv[n].0@;
    assert forall|k: Seq<char>| #[trigger] bindings(nv).contains_key(k) == bindings(vars).insert(k0, nv[n].1@).contains_key(k) by {
        if exists|j: int| 0 <= j < vars.len() && vars[j].0@ == k {
            let j = choose|j: int| 0 <= j < vars.len() && vars[j].0@ == k;
            assert(nv[j].0@ == k);
        }
        if exists|j: int| 0 <= j < nv.len() && nv[j].0@ == k {
            let j = choose|j: int| 0 <= j < nv.len() && nv[j].0@ == k;
            assert(j != n ==> vars[j].0@ == k);
        }
        if k == k0 {
            assert(nv[n].0@ == k);
        }
    }
    assert forall|k: Seq<char>| bindings(nv).contains_key(k) implies #[trigger] bindings(nv)[k] == bindings(vars).insert(k0, nv[n].1@)[k] by {
        let c = choose|j: int| 0 <= j < nv.len() && nv[j].0@ == k;
        if k == k0 {
            assert(c == n);
        } else {
            assert(c != n);
            assert(vars[c].0@ == k);
            let d = choose|j: int| 0 <= j < vars.len() && vars[j].0@ == k;
            assert(d == c);
        }
    }
    assert(bindings(nv) =~= bindings(vars).insert(k0, nv[n].1@));
}

impl Environment {
    pub closed spec fn view(&self) -> Seq<Frame> {
        Seq::new(
            self.scopes@.len(),
            |i: int| Frame {
                parent: match self.scopes@[i].parent {
                    Some(p) => Some(p as nat),
                    None => None,
                },
                vars: bindings(self.scopes@[i].vars@),
            },
        )
    }

    /// Every scope's parent comes before it, and no scope binds a name twice.
    pub closed spec fn wf(&self) -> bool {
        &&& self.scopes@.len() > 0
        &&& forall|i: int| 0 <= i < self.scopes@.len() ==> {
            &&& (self.scopes@[i].parent matches Some(p) ==> p < i)
            &&& names_distinct(self.scopes@[i].vars@)
        }
    }

    /// A well-formed environment's frames: there is a root, and each parent comes first.
    pub proof fn lemma_wf_view(&self)
        requires
            self.wf(),
        ensures
            self@.len() > 0,
            forall|i: int| 0 <= i < self@.len() ==> (#[trigger] self@[i].parent matches Some(p) ==> p < i),
    {
    }

    /// A root environment: one scope that binds each builtin operator's name.
    pub fn new() -> (r: Self)
        ensures
            r.wf(),
            r@ == seq![Frame { parent: None, vars: builtin_bindings() }],
    {
        let mut env = Environment { scopes: vec![Scope { parent: None, vars: Vec::new() }] };
        assert(env@[0].vars =~= Map::empty());
        env.set(0, "+", builtin_closure(Builtin::Add));
        env.set(0, "-", builtin_closure(Builtin::Sub));
        env.set(0, "*", builtin_closure(Builtin::Mul));
        env.set(0, "/", builtin_closure(Builtin::Div));
        env.set(0, "%", builtin_closure(Builtin::Rem));
        env.set(0, ">", builtin_closure(Builtin::Gt));
        env.set(0, "<", builtin_closure(Builtin::Lt));
        env.set(0, "=", builtin_closure(Builtin::Eq));
        env.set(0, ">=", builtin_closure(Builtin::Ge));
        env.set(0, "<=", builtin_closure(Builtin::Le));
        env.set(0, "/=", builtin_closure(Builtin::Ne));
        assert(env@[0].vars =~= builtin_bindings());
        assert(env@ =~= seq![Frame { parent: None, vars: builtin_bindings() }]);
        env
    }

    /// The value bound to `name` in scope `scope` or, failing that, in its nearest enclosing
    /// scope that binds it.
    pub fn get(&self, scope: usize, name: &str) -> (r: Option<Object>)
        requires
            self.wf(),
        ensures
            match r {
                Some(o) => lookup(self@, scope as nat, name@) == Some(o@),
                None => lookup(self@, scope as nat, name@) is None,
            },
    {
        let mut cur = scope;
        loop
            invariant
                self.wf(),
                lookup(self@, cur as nat, name@) == lookup(self@, scope as nat, name@),
            decreases cur,
        {
            if cur >= self.scopes.len() {
                return None;
            }
            let vars = &self.scopes[cur].vars;
            let mut i: usize = 0;
            while i < vars.len()
                invariant
                    self.wf(),
                    cur < self.scopes@.len(),
                    lookup(self@, cur as nat, name@) == lookup(self@, scope as nat, name@),
                    *vars == self.scopes@[cur as int].vars,
                    forall|j: int| 0 <= j < i ==> vars@[j].0@ != name@,
                decreases vars.len() - i,
            {
                if same_word(vars[i].0.as_str(), name) {
                    proof {
                        lemma_bindings_at(vars@, i as int);
                        assert(self@[cur as int].vars == bindings(vars@));
                        assert(vars@[i as int].0@ == name@);
                        assert(self@[cur as int].vars.contains_key(name@));
                        assert(lookup(self@, cur as nat, name@) == Some(vars@[i as int].1@));
                    }
                    return Some(vars[i].1.copy());
                }
                i = i + 1;
            }
            assert(!self@[cur as int].vars.contains_key(name@));
            match self.scopes[cur].parent {
                Some(p) => {
                    cur = p;
                },
                None => {
                    return None;
                },
            }
        }
    }

    /// Binds `name` to `obj` in scope `scope` alone, replacing an earlier binding of it there.
    pub fn set(&mut self, scope: usize, name: &str, obj: Object)
        requires
            old(self).wf(),
            scope < old(self)@.len(),
        ensures
            final(self).wf(),
            final(self)@ == bind(old(self)@, scope as nat, name@, obj@),
    {
        let ghost old_env = *old(self);
        let n = self.scopes[scope].vars.len();
        let mut i: usize = 0;
        while i < n
            invariant
                *self == old_env,
                old_env == *old(self),
                old_env.wf(),
                scope < self.scopes@.len(),
                n == self.scopes@[scope as int].vars@.len(),
                forall|j: int| 0 <= j < i ==> self.scopes@[scope as int].vars@[j].0@ != name@,
            decreases n - i,
        {
            if same_word(self.scopes[scope].vars[i].0.as_str(), name) {
                let ghost vars = self.scopes@[scope as int].vars@;
                self.scopes[scope].vars.set(i, (name.to_owned(), obj));
                proof {
                    lemma_bindings_replace(vars, i as int, self.scopes@[scope as int].vars@);
                    assert(self.scopes@[scope as int].parent == old_env.scopes@[scope as int].parent);
                    assert forall|j: int| 0 <= j < self.scopes@.len() && j != scope implies self.scopes@[j] == old_env.scopes@[j] by {}
                    assert(vars[i as int].0@ == name@);
                    assert(self@[scope as int].vars == old_env@[scope as int].vars.insert(name@, obj@));
                    assert(self@[scope as int] == bind(old_env@, scope as nat, name@, obj@)[scope as int]);
                }
                assert(self@ =~= bind(old_env@, scope as nat, name@, obj@));
                return;
            }
            i = i + 1;
        }
        let ghost vars = self.scopes@[scope as int].vars@;
        self.scopes[scope].vars.push((name.to_owned(), obj));
        proof {
            lemma_bindings_push(vars, self.scopes@[scope as int].vars@);
            assert forall|j: int| 0 <= j < self.scopes@.len() && j != scope implies self.scopes@[j] == old_env.scopes@[j] by {}
        }
        assert(self@ =~= bind(old_env@, scope as nat, name@, obj@));
    }

    /// Adds an empty scope whose parent is `parent`, and returns its index.
    pub fn new_scope(&mut self, parent: usize) -> (r: usize)
        requires
            old(self).wf(),
            parent < old(self)@.len(),
        ensures
            final(self).wf(),
            r == old(self)@.len(),
            final(self)@ == old(self)@.push(Frame { parent: Some(parent as nat), vars: Map::empty() }),
    {
        let r = self.scopes.len();
        self.scopes.push(Scope { parent: Some(parent), vars: Vec::new() });
        assert(bindings(self.scopes@[r as int].vars@) =~= Map::empty());
        assert(self@ =~= old(self)@.push(Frame { parent: Some(parent as nat), vars: Map::empty() }));
        r
    }

    /// The number of scopes.
    pub fn len(&self) -> (r: usize)
        ensures
            r == self@.len(),
    {
        self.scopes.len()
    }

    /// Whether `object` is one of the builtin operators.
    pub fn is_builtin(object: &Object) -> (r: bool)
        ensures
            r == (object@ is Lambda && object@->Lambda_builtin is Some),
    {
        match object {
            Object::Lambda { value, .. } => value.builtin.is_some(),
            _ => false,
        }
    }
}

} // verus!
