//! The translated-definition model and the scope tracker.
//!
//! A translated definition holds one section per kind, each created
//! lazily by a get-or-create accessor. Repeated calls of an accessor
//! yield the same single section: no duplicates ever exist.
use vstd::prelude::*;
use vstd::string::StringExecFns;
use crate::solidity;
use crate::sway;
use crate::text::str_eq;

verus! {

/// A translated variable: its source name, its canonicalized target name,
/// its mapped type, whether it lives in contract storage, where it was
/// declared, and how often it has been written.
#[derive(Clone, Debug, PartialEq, Eq)]
pub struct TranslatedVariable {
    pub old_name: String,
    pub new_name: String,
    pub ty: sway::TypeName,
    pub is_storage: bool,
    pub statement_index: Option<usize>,
    pub mutation_count: usize,
}

/// A lexical scope: its own variables, and at most one parent scope.
/// Lookup searches the local list from the back, then the parent chain.
pub struct TranslationScope {
    pub parent: Option<Box<TranslationScope>>,
    pub variables: Vec<TranslatedVariable>,
}

/// The variable a backwards search of `vars` finds under `name`.
pub open spec fn lookup_in(vars: Seq<TranslatedVariable>, name: Seq<char>) -> Option<
    TranslatedVariable,
>
    decreases vars.len(),
{
    if vars.len() == 0 {
        None
    } else if vars.last().old_name@ == name {
        Some(vars.last())
    } else {
        lookup_in(vars.drop_last(), name)
    }
}

/// The index a backwards search of `vars` finds under `name`, or `-1`.
pub open spec fn lookup_index_in(vars: Seq<TranslatedVariable>, name: Seq<char>) -> int
    decreases vars.len(),
{
    if vars.len() == 0 {
        -1
    } else if vars.last().old_name@ == name {
        vars.len() - 1
    } else {
        lookup_index_in(vars.drop_last(), name)
    }
}

impl TranslationScope {
    /// The variable the scope chain yields under a source name: the local
    /// list is searched from the back, then the parent chain.
    pub open spec fn lookup(self, name: Seq<char>) -> Option<TranslatedVariable>
        decreases self,
    {
        match lookup_in(self.variables@, name) {
            Some(v) => Some(v),
            None => match self.parent {
                Some(p) => p.lookup(name),
                None => None,
            },
        }
    }

    /// Attempts to get a reference to a variable using its old name.
    pub fn find_variable(&self, old_name: &str) -> (r: Option<&TranslatedVariable>)
        ensures
            match r {
                Some(v) => self.lookup(old_name@) == Some(*v),
                None => self.lookup(old_name@) is None,
            },
        decreases *self,
    {
        let n = self.variables.len();
        proof {
            assert(self.variables@.take(n as int) =~= self.variables@);
        }
        let mut i: usize = n;
        while i > 0
            invariant
                n == self.variables@.len(),
                0 <= i <= n,
                lookup_in(self.variables@, old_name@) == lookup_in(
                    self.variables@.take(i as int),
                    old_name@,
                ),
            decreases i,
        {
            let ghost prev = i as int;
            i -= 1;
            if str_eq(self.variables[i].old_name.as_str(), old_name) {
                proof {
                    assert(self.variables@.take(prev).last() == self.variables@[i as int]);
                }
                return Some(&self.variables[i]);
            }
            proof {
                assert(self.variables@.take(prev).drop_last() =~= self.variables@.take(
                    i as int,
                ));
            }
        }
        match &self.parent {
            Some(p) => p.find_variable(old_name),
            None => None,
        }
    }
}

/// The number of parent links above a scope.
pub open spec fn scope_depth(s: TranslationScope) -> nat
    decreases s,
{
    match s.parent {
        Some(p) => (scope_depth(*p) + 1) as nat,
        None => 0nat,
    }
}

/// `b` equals `a` except that the variable a backwards search of `a`
/// finds under `name` reads `v` in `b`.
pub open spec fn updated_at_found(
    a: TranslationScope,
    b: TranslationScope,
    name: Seq<char>,
    v: TranslatedVariable,
) -> bool
    decreases a,
{
    if lookup_in(a.variables@, name) is Some {
        b.variables@ == a.variables@.update(lookup_index_in(a.variables@, name), v)
            && b.parent == a.parent
    } else {
        b.variables@ == a.variables@ && match (a.parent, b.parent) {
            (Some(pa), Some(pb)) => updated_at_found(*pa, *pb, name, v),
            (None, None) => true,
            _ => false,
        }
    }
}

proof fn lemma_lookup_index_in(vars: Seq<TranslatedVariable>, name: Seq<char>)
    ensures
        lookup_in(vars, name) is Some ==> {
            let i = lookup_index_in(vars, name);
            &&& 0 <= i < vars.len()
            &&& vars[i].old_name@ == name
            &&& lookup_in(vars, name) == Some(vars[i])
            &&& forall|j: int| i < j < vars.len() ==> vars[j].old_name@ != name
        },
        lookup_in(vars, name) is None ==> forall|j: int|
            0 <= j < vars.len() ==> vars[j].old_name@ != name,
    decreases vars.len(),
{
    if vars.len() > 0 && vars.last().old_name@ != name {
        let d = vars.drop_last();
        lemma_lookup_index_in(d, name);
        if lookup_in(vars, name) is Some {
            let i = lookup_index_in(vars, name);
            assert(vars[i] == d[i]);
            assert forall|j: int| i < j < vars.len() implies vars[j].old_name@ != name by {
                if j < vars.len() - 1 {
                    assert(vars[j] == d[j]);
                }
            }
        } else {
            assert forall|j: int| 0 <= j < vars.len() implies vars[j].old_name@ != name by {
                if j < vars.len() - 1 {
                    assert(vars[j] == d[j]);
                }
            }
        }
    }
}

impl TranslationScope {
    /// Attempts to get a mutable reference to a variable using its old
    /// name. The scope afterwards differs from the scope before only in
    /// the found variable, which reads whatever the caller leaves in the
    /// returned reference.
    #[verifier::loop_isolation(false)]
    pub fn find_variable_mut(&mut self, old_name: &str) -> (r: Option<&mut TranslatedVariable>)
        ensures
            r is Some <==> old(self).lookup(old_name@) is Some,
            r is None ==> *final(self) == *old(self),
            r is Some ==> old(self).lookup(old_name@) == Some(*r.unwrap()) && updated_at_found(
                *old(self),
                *final(self),
                old_name@,
                *final(r.unwrap()),
            ),
        decreases scope_depth(*old(self)),
    {
        proof {
            lemma_lookup_index_in(self.variables@, old_name@);
        }
        let n = self.variables.len();
        let mut i: usize = n;
        while i > 0
            invariant
                *self == *old(self),
                n == self.variables@.len(),
                0 <= i <= n,
                forall|j: int| i <= j < n ==> self.variables@[j].old_name@ != old_name@,
            decreases i,
        {
            i -= 1;
            if str_eq(self.variables[i].old_name.as_str(), old_name) {
                proof {
                    lemma_lookup_index_in(self.variables@, old_name@);
                    assert(lookup_index_in(self.variables@, old_name@) == i);
                }
                return Some(&mut self.variables[i]);
            }
        }
        proof {
            lemma_lookup_index_in(self.variables@, old_name@);
        }
        match self.parent.as_mut() {
            Some(p) => {
                proof {
                    assert(scope_depth(**p) < scope_depth(*old(self)));
                }
                p.find_variable_mut(old_name)
            },
            None => None,
        }
    }
}

/// One translated contract, interface or library definition: its source
/// path, its kind, its name, its inherited names, and its sections, each
/// of which is created lazily on first demand.
#[derive(Clone, Debug, PartialEq, Eq)]
pub struct TranslatedDefinition {
    /// The path to the file that the original definition is located in.
    pub path: String,
    pub kind: solidity::ContractTy,
    pub name: String,
    pub inherits: Vec<String>,
    pub type_definitions: Vec<sway::TypeDefinition>,
    pub constants: Vec<sway::Constant>,
    pub structs: Vec<sway::Struct>,
    pub events_enum: Option<sway::Enum>,
    pub errors_enum: Option<sway::Enum>,
    pub abi: Option<sway::Abi>,
    pub configurable: Option<sway::Configurable>,
    pub storage: Option<sway::Storage>,
    pub functions: Vec<sway::Function>,
    pub impls: Vec<sway::Impl>,
}

/// `e` is the enum the events accessor yields for a definition in state
/// `d`: the existing one, or a fresh private empty enum named after the
/// definition.
pub open spec fn is_events_enum_of(d: TranslatedDefinition, e: sway::Enum) -> bool {
    match d.events_enum {
        Some(x) => e == x,
        None => !e.is_public && e.name@ == d.name@ + "Event"@ && e.variants@.len() == 0,
    }
}

/// `e` is the enum the errors accessor yields for a definition in state
/// `d`.
pub open spec fn is_errors_enum_of(d: TranslatedDefinition, e: sway::Enum) -> bool {
    match d.errors_enum {
        Some(x) => e == x,
        None => !e.is_public && e.name@ == d.name@ + "Error"@ && e.variants@.len() == 0,
    }
}

/// `a` is the ABI the accessor yields for a definition in state `d`: the
/// existing one, or a fresh empty ABI with the definition's name and
/// inherited names.
pub open spec fn is_abi_of(d: TranslatedDefinition, a: sway::Abi) -> bool {
    match d.abi {
        Some(x) => a == x,
        None => a.name@ == d.name@ && a.inherits.deep_view() == d.inherits.deep_view()
            && a.functions@.len() == 0,
    }
}

/// `c` is the configurable block the accessor yields for a definition in
/// state `d`.
pub open spec fn is_configurable_of(d: TranslatedDefinition, c: sway::Configurable) -> bool {
    match d.configurable {
        Some(x) => c == x,
        None => c.fields@.len() == 0,
    }
}

/// `s` is the storage block the accessor yields for a definition in state
/// `d`.
pub open spec fn is_storage_of(d: TranslatedDefinition, s: sway::Storage) -> bool {
    match d.storage {
        Some(x) => s == x,
        None => s.fields@.len() == 0,
    }
}

impl TranslatedDefinition {
    pub fn new(path: String, kind: solidity::ContractTy, name: String, inherits: Vec<String>) -> (r:
        Self)
        ensures
            r == (TranslatedDefinition {
                path,
                kind,
                name,
                inherits,
                type_definitions: r.type_definitions,
                constants: r.constants,
                structs: r.structs,
                events_enum: None,
                errors_enum: None,
                abi: None,
                configurable: None,
                storage: None,
                functions: r.functions,
                impls: r.impls,
            }),
            r.type_definitions@.len() == 0,
            r.constants@.len() == 0,
            r.structs@.len() == 0,
            r.functions@.len() == 0,
            r.impls@.len() == 0,
    {
        TranslatedDefinition {
            path,
            kind,
            name,
            inherits,
            type_definitions: Vec::new(),
            constants: Vec::new(),
            structs: Vec::new(),
            events_enum: None,
            errors_enum: None,
            abi: None,
            configurable: None,
            storage: None,
            functions: Vec::new(),
            impls: Vec::new(),
        }
    }

    /// Gets the events enum for the translated definition. If it doesn't
    /// exist, it gets created; a second call returns the same single enum.
    pub fn get_events_enum(&mut self) -> (r: &mut sway::Enum)
        ensures
            is_events_enum_of(*old(self), *r),
            *final(self) == (TranslatedDefinition { events_enum: Some(*final(r)), ..*old(self) }),
    {
        if self.events_enum.is_none() {
            let mut n = self.name.clone();
            n.append("Event");
            self.events_enum = Some(sway::Enum { is_public: false, name: n, variants: Vec::new() });
        }
        self.events_enum.as_mut().unwrap()
    }

    /// Gets the errors enum for the translated definition. If it doesn't
    /// exist, it gets created; a second call returns the same single enum.
    pub fn get_errors_enum(&mut self) -> (r: &mut sway::Enum)
        ensures
            is_errors_enum_of(*old(self), *r),
            *final(self) == (TranslatedDefinition { errors_enum: Some(*final(r)), ..*old(self) }),
    {
        if self.errors_enum.is_none() {
            let mut n = self.name.clone();
            n.append("Error");
            self.errors_enum = Some(sway::Enum { is_public: false, name: n, variants: Vec::new() });
        }
        self.errors_enum.as_mut().unwrap()
    }

    /// Gets the ABI for the translated definition. If it doesn't exist, it
    /// gets created; a second call returns the same single ABI.
    pub fn get_abi(&mut self) -> (r: &mut sway::Abi)
        ensures
            is_abi_of(*old(self), *r),
            *final(self) == (TranslatedDefinition { abi: Some(*final(r)), ..*old(self) }),
    {
        if self.abi.is_none() {
            let name = self.name.clone();
            let inherits = clone_strings(&self.inherits);
            self.abi = Some(sway::Abi { name, inherits, functions: Vec::new() });
        }
        self.abi.as_mut().unwrap()
    }

    /// Gets the configurable block for the translated definition. If it
    /// doesn't exist, it gets created; a second call returns the same
    /// single block.
    pub fn get_configurable(&mut self) -> (r: &mut sway::Configurable)
        ensures
            is_configurable_of(*old(self), *r),
            *final(self) == (TranslatedDefinition { configurable: Some(*final(r)), ..*old(self) }),
    {
        if self.configurable.is_none() {
            self.configurable = Some(sway::Configurable { fields: Vec::new() });
        }
        self.configurable.as_mut().unwrap()
    }

    /// Gets the storage block for the translated definition. If it doesn't
    /// exist, it gets created; a second call returns the same single
    /// block.
    pub fn get_storage(&mut self) -> (r: &mut sway::Storage)
        ensures
            is_storage_of(*old(self), *r),
            *final(self) == (TranslatedDefinition { storage: Some(*final(r)), ..*old(self) }),
    {
        if self.storage.is_none() {
            self.storage = Some(sway::Storage { fields: Vec::new() });
        }
        self.storage.as_mut().unwrap()
    }
}

/// A clone of a vector of strings, character for character.
pub fn clone_strings(v: &Vec<String>) -> (r: Vec<String>)
    ensures
        r.deep_view() == v.deep_view(),
        r@.len() == v@.len(),
{
    let mut r: Vec<String> = Vec::new();
    let n = v.len();
    let mut i: usize = 0;
    while i < n
        invariant
            n == v@.len(),
            0 <= i <= n,
            r@.len() == i,
            forall|j: int| 0 <= j < i ==> r@[j]@ == v@[j]@,
        decreases n - i,
    {
        r.push(v[i].clone());
        i += 1;
    }
    proof {
        assert(r.deep_view() =~= v.deep_view());
    }
    r
}

/// Whether `i` is the implementation block for a definition named
/// `name`, scoped to the built-in `Contract` marker type.
pub open spec fn is_contract_impl(name: Seq<char>, i: sway::Impl) -> bool {
    i.ty.name@ == name && match i.for_ty {
        Some(t) => t.name@ == "Contract"@,
        None => false,
    }
}

/// The index of the first implementation block for `Contract`, or `-1`.
pub open spec fn contract_impl_index(name: Seq<char>, impls: Seq<sway::Impl>) -> int
    decreases impls.len(),
{
    if impls.len() == 0 {
        -1
    } else if is_contract_impl(name, impls[0]) {
        0
    } else {
        let r = contract_impl_index(name, impls.drop_first());
        if r < 0 {
            -1
        } else {
            1 + r
        }
    }
}

proof fn lemma_contract_impl_index(name: Seq<char>, impls: Seq<sway::Impl>)
    ensures
        contract_impl_index(name, impls) >= 0 ==> contract_impl_index(name, impls) < impls.len()
            && is_contract_impl(name, impls[contract_impl_index(name, impls)]),
        forall|j: int|
            0 <= j < contract_impl_index(name, impls) ==> !is_contract_impl(name, impls[j]),
        contract_impl_index(name, impls) < 0 ==> forall|j: int|
            0 <= j < impls.len() ==> !is_contract_impl(name, impls[j]),
    decreases impls.len(),
{
    if impls.len() > 0 && !is_contract_impl(name, impls[0]) {
        let d = impls.drop_first();
        lemma_contract_impl_index(name, d);
        assert forall|j: int|
            0 <= j < contract_impl_index(name, impls) implies !is_contract_impl(
            name,
            impls[j],
        ) by {
            if j > 0 {
                assert(impls[j] == d[j - 1]);
            }
        }
        if contract_impl_index(name, impls) < 0 {
            assert forall|j: int| 0 <= j < impls.len() implies !is_contract_impl(
                name,
                impls[j],
            ) by {
                if j > 0 {
                    assert(impls[j] == d[j - 1]);
                }
            }
        }
    }
}

impl TranslatedDefinition {
    /// Gets the definition's implementation block for `Contract`. If it
    /// doesn't exist, it gets created: at most one such block ever exists,
    /// and every call returns that one block.
    pub fn get_contract_impl(&mut self) -> (r: &mut sway::Impl)
        ensures
            is_contract_impl(old(self).name@, *r),
            contract_impl_index(old(self).name@, old(self).impls@) >= 0 ==> *r == old(
                self,
            ).impls@[contract_impl_index(old(self).name@, old(self).impls@)] && final(self).impls@
                == old(self).impls@.update(
                contract_impl_index(old(self).name@, old(self).impls@),
                *final(r),
            ),
            contract_impl_index(old(self).name@, old(self).impls@) < 0 ==> r.items@.len() == 0
                && final(self).impls@ == old(self).impls@.push(*final(r)),
            *final(self) == (TranslatedDefinition { impls: final(self).impls, ..*old(self) }),
    {
        proof {
            lemma_contract_impl_index(self.name@, self.impls@);
        }
        let n = self.impls.len();
        let mut i: usize = 0;
        while i < n
            invariant
                *self == *old(self),
                n == self.impls@.len(),
                0 <= i <= n,
                forall|j: int| 0 <= j < i ==> !is_contract_impl(self.name@, self.impls@[j]),
            decreases n - i,
        {
            let found = {
                let imp = &self.impls[i];
                if str_eq(imp.ty.name.as_str(), self.name.as_str()) {
                    match &imp.for_ty {
                        Some(t) => str_eq(t.name.as_str(), "Contract"),
                        None => false,
                    }
                } else {
                    false
                }
            };
            if found {
                proof {
                    lemma_contract_impl_index(self.name@, self.impls@);
                    if contract_impl_index(self.name@, self.impls@) != i {
                        assert(is_contract_impl(
                            self.name@,
                            self.impls@[contract_impl_index(self.name@, self.impls@)],
                        ));
                    }
                }
                return &mut self.impls[i];
            }
            i += 1;
        }
        proof {
            lemma_contract_impl_index(self.name@, self.impls@);
        }
        let imp = sway::Impl {
            ty: sway::TypeName { name: self.name.clone() },
            for_ty: Some(sway::TypeName { name: "Contract".to_owned() }),
            items: Vec::new(),
        };
        self.impls.push(imp);
        &mut self.impls[n]
    }
}

/// Law: a get-or-create accessor is idempotent. Calling the events-enum
/// accessor twice on a definition, without touching what it returns,
/// yields the identical single enum both times and leaves the definition
/// as after the first call: never two sections.
pub proof fn lemma_get_events_enum_idempotent(
    d: TranslatedDefinition,
    e1: sway::Enum,
    d1: TranslatedDefinition,
    e2: sway::Enum,
    d2: TranslatedDefinition,
)
    requires
        is_events_enum_of(d, e1),
        d1 == (TranslatedDefinition { events_enum: Some(e1), ..d }),
        is_events_enum_of(d1, e2),
        d2 == (TranslatedDefinition { events_enum: Some(e2), ..d1 }),
    ensures
        e2 == e1,
        d2 == d1,
        d1.events_enum == Some(e1),
{
}

/// Law: the errors-enum accessor is idempotent, as the events one is.
pub proof fn lemma_get_errors_enum_idempotent(
    d: TranslatedDefinition,
    e1: sway::Enum,
    d1: TranslatedDefinition,
    e2: sway::Enum,
    d2: TranslatedDefinition,
)
    requires
        is_errors_enum_of(d, e1),
        d1 == (TranslatedDefinition { errors_enum: Some(e1), ..d }),
        is_errors_enum_of(d1, e2),
        d2 == (TranslatedDefinition { errors_enum: Some(e2), ..d1 }),
    ensures
        e2 == e1,
        d2 == d1,
        d1.errors_enum == Some(e1),
{
}

/// Law: the ABI accessor is idempotent.
pub proof fn lemma_get_abi_idempotent(
    d: TranslatedDefinition,
    a1: sway::Abi,
    d1: TranslatedDefinition,
    a2: sway::Abi,
    d2: TranslatedDefinition,
)
    requires
        is_abi_of(d, a1),
        d1 == (TranslatedDefinition { abi: Some(a1), ..d }),
        is_abi_of(d1, a2),
        d2 == (TranslatedDefinition { abi: Some(a2), ..d1 }),
    ensures
        a2 == a1,
        d2 == d1,
        d1.abi == Some(a1),
{
}

/// Law: the configurable-block accessor is idempotent.
pub proof fn lemma_get_configurable_idempotent(
    d: TranslatedDefinition,
    c1: sway::Configurable,
    d1: TranslatedDefinition,
    c2: sway::Configurable,
    d2: TranslatedDefinition,
)
    requires
        is_configurable_of(d, c1),
        d1 == (TranslatedDefinition { configurable: Some(c1), ..d }),
        is_configurable_of(d1, c2),
        d2 == (TranslatedDefinition { configurable: Some(c2), ..d1 }),
    ensures
        c2 == c1,
        d2 == d1,
        d1.configurable == Some(c1),
{
}

/// Law: the storage-block accessor is idempotent.
pub proof fn lemma_get_storage_idempotent(
    d: TranslatedDefinition,
    s1: sway::Storage,
    d1: TranslatedDefinition,
    s2: sway::Storage,
    d2: TranslatedDefinition,
)
    requires
        is_storage_of(d, s1),
        d1 == (TranslatedDefinition { storage: Some(s1), ..d }),
        is_storage_of(d1, s2),
        d2 == (TranslatedDefinition { storage: Some(s2), ..d1 }),
    ensures
        s2 == s1,
        d2 == d1,
        d1.storage == Some(s1),
{
}

/// Law: the `Contract` implementation-block accessor never leaves two
/// such blocks. Once a definition holds one, a second access finds the
/// same block at the same position and pushes nothing.
pub proof fn lemma_get_contract_impl_idempotent(d: TranslatedDefinition, d1: TranslatedDefinition)
    requires
        contract_impl_index(d.name@, d.impls@) < 0,
        d1 == (TranslatedDefinition { impls: d1.impls, ..d }),
        contract_impl_index(d.name@, d1.impls@) < d1.impls@.len(),
        d1.impls@.len() == d.impls@.len() + 1,
        is_contract_impl(d.name@, d1.impls@.last()),
        d1.impls@.take(d.impls@.len() as int) == d.impls@,
    ensures
        contract_impl_index(d1.name@, d1.impls@) == d1.impls@.len() - 1,
    decreases d.impls@.len(),
{
    lemma_contract_impl_index(d.name@, d.impls@);
    lemma_contract_impl_index(d1.name@, d1.impls@);
    let idx = contract_impl_index(d1.name@, d1.impls@);
    if idx != d1.impls@.len() - 1 {
        assert(d1.impls@[idx] == d.impls@[idx]);
    }
}

} // verus!
