//! The scoped symbol table: an arena of scopes, each holding a mapping from
//! identifier to symbol and a handle to its parent scope, with a cursor for
//! the current scope. Scope 0 is the permanent global scope. Lookups resolve
//! lexically: the current scope first, then each ancestor, first match wins,
//! so an inner declaration shadows an outer one of the same name.

use vstd::prelude::*;

use crate::ast::Type;
use crate::text::str_eq;

verus! {

/// A function signature: name, return type, and the ordered parameter types.
#[derive(Debug)]
pub struct FunctionSig {
    pub name: String,
    pub return_type: Type,
    pub params_types: Vec<Type>,
}

impl Clone for FunctionSig {
    fn clone(&self) -> (r: FunctionSig)
        ensures
            r@ == self@,
    {
        FunctionSig {
            name: self.name.clone(),
            return_type: self.return_type,
            params_types: self.params_types.clone(),
        }
    }
}

/// The mathematical value of a [`FunctionSig`].
pub struct FunctionSigV {
    pub name: Seq<char>,
    pub return_type: Type,
    pub params_types: Seq<Type>,
}

impl View for FunctionSig {
    type V = FunctionSigV;

    open spec fn view(&self) -> FunctionSigV {
        FunctionSigV { name: self.name@, return_type: self.return_type, params_types: self.params_types@ }
    }
}

/// A declared entity: a global function, a local variable, or a parameter.
#[derive(Debug, Clone)]
pub enum Symbol {
    Function(FunctionSig),
    Variable { name: String, ty: Type },
    Param { name: String, ty: Type },
}

/// The mathematical value of a [`Symbol`].
pub enum SymbolV {
    Function(FunctionSigV),
    Variable { name: Seq<char>, ty: Type },
    Param { name: Seq<char>, ty: Type },
}

impl View for Symbol {
    type V = SymbolV;

    open spec fn view(&self) -> SymbolV {
        match self {
            Symbol::Function(sig) => SymbolV::Function(sig@),
            Symbol::Variable { name, ty } => SymbolV::Variable { name: name@, ty: *ty },
            Symbol::Param { name, ty } => SymbolV::Param { name: name@, ty: *ty },
        }
    }
}

/// The mathematical value of one scope: its bindings and its parent handle
/// (`None` only for the global scope).
pub struct ScopeV {
    pub symbols: Map<Seq<char>, SymbolV>,
    pub parent: Option<int>,
}

/// The mathematical value of the whole table: the scope arena and the index
/// of the current scope.
pub struct SymbolTableV {
    pub scopes: Seq<ScopeV>,
    pub current: int,
}

/// Lexical resolution in the scope arena: the binding for `name` in the
/// first scope on the parent chain from `idx` upward that has one. The
/// recursion is guarded so that it is well-defined on every argument;
/// a well-formed table always has `parent < idx`.
pub open spec fn lookup_from(scopes: Seq<ScopeV>, idx: int, name: Seq<char>) -> Option<SymbolV>
    decreases idx when 0 <= idx
{
    if idx < 0 || idx >= scopes.len() {
        None
    } else if scopes[idx].symbols.contains_key(name) {
        Some(scopes[idx].symbols[name])
    } else {
        match scopes[idx].parent {
            Some(p) => if 0 <= p < idx {
                lookup_from(scopes, p, name)
            } else {
                None
            },
            None => None,
        }
    }
}

/// One scope: an association list of bindings plus the parent handle.
/// Insertion refuses a name already present, so the keys stay distinct
/// and the list denotes a finite map.
struct Scope {
    symbols: Vec<(String, Symbol)>,
    parent: Option<usize>,
}

/// The finite map denoted by an association list with distinct keys.
spec fn assoc_map(entries: Seq<(String, Symbol)>) -> Map<Seq<char>, SymbolV>
    decreases entries.len(),
{
    if entries.len() == 0 {
        Map::empty()
    } else {
        assoc_map(entries.drop_last()).insert(entries.last().0@, entries.last().1@)
    }
}

/// Distinctness of the keys of an association list.
spec fn distinct_keys(entries: Seq<(String, Symbol)>) -> bool {
    forall|i: int, j: int|
        0 <= i < j < entries.len() ==> entries[i].0@ != entries[j].0@
}

proof fn lemma_assoc_map_present(entries: Seq<(String, Symbol)>, i: int)
    requires
        distinct_keys(entries),
        0 <= i < entries.len(),
    ensures
        assoc_map(entries).contains_key(entries[i].0@),
        assoc_map(entries)[entries[i].0@] == entries[i].1@,
    decreases entries.len(),
{
    if i + 1 < entries.len() {
        lemma_assoc_map_present(entries.drop_last(), i);
    }
}

proof fn lemma_assoc_map_absent(entries: Seq<(String, Symbol)>, name: Seq<char>)
    requires
        forall|i: int| 0 <= i < entries.len() ==> entries[i].0@ != name,
    ensures
        !assoc_map(entries).contains_key(name),
    decreases entries.len(),
{
    if entries.len() > 0 {
        lemma_assoc_map_absent(entries.drop_last(), name);
    }
}

impl Scope {
    spec fn view_map(&self) -> Map<Seq<char>, SymbolV> {
        assoc_map(self.symbols@)
    }

    spec fn view_parent(&self) -> Option<int> {
        match self.parent {
            Some(p) => Some(p as int),
            None => None,
        }
    }

    spec fn view(&self) -> ScopeV {
        ScopeV { symbols: self.view_map(), parent: self.view_parent() }
    }

    spec fn wf(&self) -> bool {
        distinct_keys(self.symbols@)
    }

    fn new(parent: Option<usize>) -> (r: Scope)
        ensures
            r.wf(),
            r.view() == (ScopeV { symbols: Map::empty(), parent: match parent {
                Some(p) => Some(p as int),
                None => None,
            } }),
    {
        Scope { symbols: Vec::new(), parent }
    }

    /// The binding for `name` in this one scope, if any.
    fn get<'a>(&'a self, name: &str) -> (r: Option<&'a Symbol>)
        requires
            self.wf(),
        ensures
            match r {
                Some(sym) => self.view_map().contains_key(name@) && self.view_map()[name@] == sym@,
                None => !self.view_map().contains_key(name@),
            },
    {
        let n = self.symbols.len();
        let mut i: usize = 0;
        while i < n
            invariant
                self.wf(),
                n == self.symbols@.len(),
                i <= n,
                forall|k: int| 0 <= k < i ==> self.symbols@[k].0@ != name@,
            decreases n - i,
        {
            if str_eq(self.symbols[i].0.as_str(), name) {
                proof {
                    lemma_assoc_map_present(self.symbols@, i as int);
                }
                return Some(&self.symbols[i].1);
            }
            i += 1;
        }
        proof {
            lemma_assoc_map_absent(self.symbols@, name@);
        }
        None
    }

    /// Adds a binding for a name that is not yet present in this scope.
    fn insert(&mut self, name: String, sym: Symbol)
        requires
            old(self).wf(),
            !old(self).view_map().contains_key(name@),
        ensures
            final(self).wf(),
            final(self).view_map() == old(self).view_map().insert(name@, sym@),
            final(self).view_parent() == old(self).view_parent(),
    {
        proof {
            if exists|i: int| 0 <= i < self.symbols@.len() && self.symbols@[i].0@ == name@ {
                let i = choose|i: int| 0 <= i < self.symbols@.len() && self.symbols@[i].0@ == name@;
                lemma_assoc_map_present(self.symbols@, i);
            }
            assert(forall|i: int| 0 <= i < self.symbols@.len() ==> self.symbols@[i].0@ != name@);
        }
        let ghost before = self.symbols@;
        self.symbols.push((name, sym));
        proof {
            assert(self.symbols@.drop_last() =~= before);
        }
    }
}

/// The scoped symbol table.
pub struct SymbolTable {
    scopes: Vec<Scope>,
    current: usize,
}

impl View for SymbolTable {
    type V = SymbolTableV;

    closed spec fn view(&self) -> SymbolTableV {
        SymbolTableV {
            scopes: Seq::new(self.scopes@.len(), |i: int| self.scopes@[i].view()),
            current: self.current as int,
        }
    }
}

impl SymbolTable {
    /// The table's invariant: the global scope is scope 0 and has no parent,
    /// every later scope points to an earlier one, and the cursor is valid.
    pub closed spec fn wf(&self) -> bool {
        &&& 0 < self.scopes@.len()
        &&& self.current < self.scopes@.len()
        &&& self.scopes@[0].view_parent() is None
        &&& forall|i: int|
            0 < i < self.scopes@.len() ==> ((#[trigger] self.scopes@[i].view_parent()) matches Some(p)
                && 0 <= p < i)
        &&& forall|i: int| 0 <= i < self.scopes@.len() ==> (#[trigger] self.scopes@[i]).wf()
    }

    /// The well-formedness that callers can state over the view alone.
    pub open spec fn wf_view(v: SymbolTableV) -> bool {
        &&& 0 < v.scopes.len()
        &&& 0 <= v.current < v.scopes.len()
        &&& v.scopes[0].parent is None
        &&& forall|i: int|
            0 < i < v.scopes.len() ==> ((#[trigger] v.scopes[i].parent) matches Some(p) && 0 <= p < i)
    }

    pub broadcast proof fn lemma_wf_view(&self)
        requires
            #[trigger] self.wf(),
        ensures
            Self::wf_view(self@),
    {
    }

    /// Creates a table holding only the empty global scope, which is current.
    pub fn new() -> (r: SymbolTable)
        ensures
            r.wf(),
            r@.scopes.len() == 1,
            r@.scopes[0].symbols == Map::<Seq<char>, SymbolV>::empty(),
            r@.scopes[0].parent is None,
            r@.current == 0,
    {
        let mut scopes = Vec::new();
        scopes.push(Scope::new(None));
        SymbolTable { scopes, current: 0 }
    }

    /// Creates a new scope whose parent is the current scope and makes it
    /// current.
    pub fn enter_scope(&mut self)
        requires
            old(self).wf(),
        ensures
            final(self).wf(),
            final(self)@.scopes == old(self)@.scopes.push(ScopeV {
                symbols: Map::empty(),
                parent: Some(old(self)@.current),
            }),
            final(self)@.current == old(self)@.scopes.len(),
    {
        let parent = Some(self.current);
        let id = self.scopes.len();
        self.scopes.push(Scope::new(parent));
        self.current = id;
        proof {
            assert(final(self)@.scopes =~= old(self)@.scopes.push(ScopeV {
                symbols: Map::empty(),
                parent: Some(old(self)@.current),
            }));
        }
    }

    /// Returns to the parent of the current scope; at the global scope this
    /// is a no-op.
    pub fn leave_scope(&mut self)
        requires
            old(self).wf(),
        ensures
            final(self).wf(),
            final(self)@.scopes == old(self)@.scopes,
            final(self)@.current == match old(self)@.scopes[old(self)@.current].parent {
                Some(p) => p,
                None => old(self)@.current,
            },
    {
        if let Some(parent) = self.scopes[self.current].parent {
            self.current = parent;
        }
        proof {
            assert(final(self)@.scopes =~= old(self)@.scopes);
        }
    }

    /// Inserts a function signature into the global scope; refuses a name
    /// already declared there.
    pub fn declare_global_function(&mut self, sig: FunctionSig) -> (r: Result<(), String>)
        requires
            old(self).wf(),
        ensures
            final(self).wf(),
            final(self)@.current == old(self)@.current,
            match r {
                Ok(()) => {
                    &&& !old(self)@.scopes[0].symbols.contains_key(sig@.name)
                    &&& final(self)@.scopes == old(self)@.scopes.update(0, ScopeV {
                        symbols: old(self)@.scopes[0].symbols.insert(sig@.name, SymbolV::Function(sig@)),
                        parent: old(self)@.scopes[0].parent,
                    })
                },
                Err(msg) => {
                    &&& old(self)@.scopes[0].symbols.contains_key(sig@.name)
                    &&& final(self)@.scopes == old(self)@.scopes
                    &&& msg@ == "duplicate function: "@ + sig@.name
                },
            },
    {
        let name = sig.name.clone();
        if self.scopes[0].get(name.as_str()).is_some() {
            let mut msg: String = "duplicate function: ".to_owned();
            msg.append(name.as_str());
            proof {
                assert(final(self)@.scopes =~= old(self)@.scopes);
            }
            return Err(msg);
        }
        let ghost prev = self@.scopes;
        let sym = Symbol::Function(sig);
        let slot = &mut self.scopes[0];
        slot.insert(name, sym);
        proof {
            assert(final(self)@.scopes =~= prev.update(0, ScopeV {
                symbols: prev[0].symbols.insert(sym@->Function_0.name, sym@),
                parent: prev[0].parent,
            }));
        }
        Ok(())
    }

    /// Inserts a local variable into the current scope; refuses a name
    /// already declared in that exact scope (shadowing an outer scope is
    /// allowed and is not an error).
    pub fn declare_local_var(&mut self, name: &str, ty: Type) -> (r: Result<(), String>)
        requires
            old(self).wf(),
        ensures
            final(self).wf(),
            final(self)@.current == old(self)@.current,
            match r {
                Ok(()) => {
                    &&& !old(self)@.scopes[old(self)@.current].symbols.contains_key(name@)
                    &&& final(self)@.scopes == old(self)@.scopes.update(old(self)@.current, ScopeV {
                        symbols: old(self)@.scopes[old(self)@.current].symbols.insert(name@,
                            SymbolV::Variable { name: name@, ty }),
                        parent: old(self)@.scopes[old(self)@.current].parent,
                    })
                },
                Err(msg) => {
                    &&& old(self)@.scopes[old(self)@.current].symbols.contains_key(name@)
                    &&& final(self)@.scopes == old(self)@.scopes
                    &&& msg@ == "duplicate local: "@ + name@
                },
            },
    {
        let cur = self.current;
        if self.scopes[cur].get(name).is_some() {
            let mut msg: String = "duplicate local: ".to_owned();
            msg.append(name);
            proof {
                assert(final(self)@.scopes =~= old(self)@.scopes);
            }
            return Err(msg);
        }
        let ghost prev = self@.scopes;
        let sym = Symbol::Variable { name: name.to_owned(), ty };
        let slot = &mut self.scopes[cur];
        slot.insert(name.to_owned(), sym);
        proof {
            assert(final(self)@.scopes =~= prev.update(self@.current, ScopeV {
                symbols: prev[self@.current].symbols.insert(name@,
                    SymbolV::Variable { name: name@, ty }),
                parent: prev[self@.current].parent,
            }));
        }
        Ok(())
    }

    /// Inserts a parameter into the current scope; refuses a name already
    /// declared in that exact scope.
    pub fn declare_param(&mut self, name: &str, ty: Type) -> (r: Result<(), String>)
        requires
            old(self).wf(),
        ensures
            final(self).wf(),
            final(self)@.current == old(self)@.current,
            match r {
                Ok(()) => {
                    &&& !old(self)@.scopes[old(self)@.current].symbols.contains_key(name@)
                    &&& final(self)@.scopes == old(self)@.scopes.update(old(self)@.current, ScopeV {
                        symbols: old(self)@.scopes[old(self)@.current].symbols.insert(name@,
                            SymbolV::Param { name: name@, ty }),
                        parent: old(self)@.scopes[old(self)@.current].parent,
                    })
                },
                Err(msg) => {
                    &&& old(self)@.scopes[old(self)@.current].symbols.contains_key(name@)
                    &&& final(self)@.scopes == old(self)@.scopes
                    &&& msg@ == "duplicate param: "@ + name@
                },
            },
    {
        let cur = self.current;
        if self.scopes[cur].get(name).is_some() {
            let mut msg: String = "duplicate param: ".to_owned();
            msg.append(name);
            proof {
                assert(final(self)@.scopes =~= old(self)@.scopes);
            }
            return Err(msg);
        }
        let ghost prev = self@.scopes;
        let sym = Symbol::Param { name: name.to_owned(), ty };
        let slot = &mut self.scopes[cur];
        slot.insert(name.to_owned(), sym);
        proof {
            assert(final(self)@.scopes =~= prev.update(self@.current, ScopeV {
                symbols: prev[self@.current].symbols.insert(name@,
                    SymbolV::Param { name: name@, ty }),
                parent: prev[self@.current].parent,
            }));
        }
        Ok(())
    }

    /// The nearest-enclosing binding for `name`, searching from the current
    /// scope up the parent chain to the global scope; never mutates.
    pub fn lookup<'a>(&'a self, name: &str) -> (r: Option<&'a Symbol>)
        requires
            self.wf(),
        ensures
            match r {
                Some(sym) => lookup_from(self@.scopes, self@.current, name@) == Some(sym@),
                None => lookup_from(self@.scopes, self@.current, name@) is None,
            },
    {
        let mut scope_idx = self.current;
        loop
            invariant
                self.wf(),
                scope_idx < self.scopes@.len(),
                lookup_from(self@.scopes, self@.current, name@) == lookup_from(self@.scopes,
                    scope_idx as int, name@),
            decreases scope_idx,
        {
            let found = self.scopes[scope_idx].get(name);
            if found.is_some() {
                return found;
            }
            match self.scopes[scope_idx].parent {
                Some(parent) => {
                    scope_idx = parent;
                }
                None => {
                    return None;
                }
            }
        }
    }

    /// The signature bound to `name` in the global scope, if `name` is
    /// declared there as a function.
    pub fn find_global_function(&self, name: &str) -> (r: Option<FunctionSig>)
        requires
            self.wf(),
        ensures
            match r {
                Some(sig) => self@.scopes[0].symbols.contains_key(name@)
                    && self@.scopes[0].symbols[name@] == SymbolV::Function(sig@),
                None => !(self@.scopes[0].symbols.contains_key(name@)
                    && self@.scopes[0].symbols[name@] is Function),
            },
    {
        match self.scopes[0].get(name) {
            Some(sym) => match sym {
                Symbol::Function(sig) => Some(sig.clone()),
                _ => None,
            },
            None => None,
        }
    }
}

/// Shadowing: a name declared in a scope is what lookup started at that
/// scope finds, whatever outer scopes declare under the same name.
pub proof fn lemma_lookup_shadowing(scopes: Seq<ScopeV>, idx: int, name: Seq<char>)
    requires
        0 <= idx < scopes.len(),
        scopes[idx].symbols.contains_key(name),
    ensures
        lookup_from(scopes, idx, name) == Some(scopes[idx].symbols[name]),
{
}

/// Lexical resolution steps to the parent: where the starting scope does not
/// declare the name, lookup is lookup from the parent scope.
pub proof fn lemma_lookup_parent(scopes: Seq<ScopeV>, idx: int, p: int, name: Seq<char>)
    requires
        0 <= idx < scopes.len(),
        !scopes[idx].symbols.contains_key(name),
        scopes[idx].parent == Some(p),
        0 <= p < idx,
    ensures
        lookup_from(scopes, idx, name) == lookup_from(scopes, p, name),
{
}

} // verus!
