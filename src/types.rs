use vstd::prelude::*;

verus! {

/// Identifier of a registered contract: its index in the engine's registry.
#[derive(Clone, Copy, Debug, PartialEq, Eq, Structural)]
pub struct ContractHash(pub usize);

/// A value that a namespace can hold.
#[derive(Clone, Copy, Debug, PartialEq, Eq, Structural)]
pub enum Key {
    /// A reference to a registered contract.
    Hash(ContractHash),
    /// A reference to some other stored value.
    URef(u64),
}

impl Key {
    pub open spec fn spec_into_hash(self) -> Option<ContractHash> {
        match self {
            Key::Hash(h) => Some(h),
            Key::URef(_) => None,
        }
    }

    /// The contract this key refers to, if it refers to one.
    pub fn into_hash(self) -> (r: Option<ContractHash>)
        ensures
            r == self.spec_into_hash(),
    {
        match self {
            Key::Hash(h) => Some(h),
            Key::URef(_) => None,
        }
    }
}

/// Errors that abort a call.
#[derive(Clone, Copy, Debug, PartialEq, Eq, Structural)]
pub enum ApiError {
    /// The registry holds as many contracts as it can.
    RegistryFull,
    /// A nested call would exceed the engine's call-depth limit.
    CallDepthExceeded,
    /// No contract is registered under the handle.
    ContractNotFound,
    /// The contract exposes no entry point of that name.
    NoSuchMethod,
    /// The entry point is declared but the module carries no code for it.
    MissingExport,
    /// A stored key does not refer to a contract.
    UnexpectedKeyVariant,
}

/// The type of a parameter or a return value.
#[derive(Clone, Copy, Debug, PartialEq, Eq, Structural)]
pub enum CLType {
    Unit,
    Bool,
    U64,
    String,
    Key,
}

/// Who may call an entry point.
#[derive(Debug)]
pub enum EntryPointAccess {
    Public,
    Groups(Vec<String>),
}

/// The mathematical value of an [`EntryPointAccess`].
pub ghost enum AccessView {
    Public,
    Groups(Seq<Seq<char>>),
}

impl View for EntryPointAccess {
    type V = AccessView;

    open spec fn view(&self) -> AccessView {
        match self {
            EntryPointAccess::Public => AccessView::Public,
            EntryPointAccess::Groups(g) => AccessView::Groups(g@.map_values(|s: String| s@)),
        }
    }
}

/// Whether an entry point runs in the context of its contract or of the caller.
#[derive(Clone, Copy, Debug, PartialEq, Eq, Structural)]
pub enum EntryPointType {
    Session,
    Contract,
}

/// One named, typed parameter.
#[derive(Debug)]
pub struct Parameter {
    pub name: String,
    pub cl_type: CLType,
}

/// Metadata of one callable function of a contract.
#[derive(Debug)]
pub struct EntryPoint {
    pub name: String,
    pub parameters: Vec<Parameter>,
    pub ret: CLType,
    pub access: EntryPointAccess,
    pub kind: EntryPointType,
}

/// The mathematical value of an [`EntryPoint`].
pub ghost struct EntryPointView {
    pub name: Seq<char>,
    pub parameters: Seq<(Seq<char>, CLType)>,
    pub ret: CLType,
    pub access: AccessView,
    pub kind: EntryPointType,
}

impl View for EntryPoint {
    type V = EntryPointView;

    open spec fn view(&self) -> EntryPointView {
        EntryPointView {
            name: self.name@,
            parameters: self.parameters@.map_values(|p: Parameter| (p.name@, p.cl_type)),
            ret: self.ret,
            access: self.access@,
            kind: self.kind,
        }
    }
}

impl EntryPoint {
    pub fn new(
        name: &str,
        parameters: Vec<Parameter>,
        ret: CLType,
        access: EntryPointAccess,
        kind: EntryPointType,
    ) -> (r: EntryPoint)
        ensures
            r@ == (EntryPointView {
                name: name@,
                parameters: parameters@.map_values(|p: Parameter| (p.name@, p.cl_type)),
                ret,
                access: access@,
                kind,
            }),
    {
        EntryPoint { name: name.to_owned(), parameters, ret, access, kind }
    }
}

/// Whether two strings hold the same characters.
pub fn str_eq(a: &str, b: &str) -> (r: bool)
    ensures
        r == (a@ == b@),
{
    let n = a.unicode_len();
    if n != b.unicode_len() {
        return false;
    }
    let mut i: usize = 0;
    while i < n
        invariant
            n == a@.len(),
            n == b@.len(),
            i <= n,
            a@.subrange(0, i as int) == b@.subrange(0, i as int),
        decreases n - i,
    {
        if a.get_char(i) != b.get_char(i) {
            assert(a@[i as int] != b@[i as int]);
            return false;
        }
        assert(a@.subrange(0, i + 1) == a@.subrange(0, i as int).push(a@[i as int]));
        assert(b@.subrange(0, i + 1) == b@.subrange(0, i as int).push(b@[i as int]));
        i = i + 1;
    }
    assert(a@ == a@.subrange(0, n as int));
    assert(b@ == b@.subrange(0, n as int));
    true
}

/// The table of entry points of a contract; no two carry the same name.
#[derive(Debug)]
pub struct EntryPoints {
    points: Vec<EntryPoint>,
}

impl View for EntryPoints {
    type V = Seq<EntryPointView>;

    closed spec fn view(&self) -> Seq<EntryPointView> {
        self.points@.map_values(|e: EntryPoint| e@)
    }
}

/// Whether a sequence of entry points holds one named `name`.
pub open spec fn has_entry_point(eps: Seq<EntryPointView>, name: Seq<char>) -> bool {
    exists|i: int| 0 <= i < eps.len() && #[trigger] eps[i].name == name
}

/// No two entry points of the sequence share a name.
pub open spec fn names_unique(eps: Seq<EntryPointView>) -> bool {
    forall|i: int, j: int|
        0 <= i < eps.len() && 0 <= j < eps.len() && i != j ==> #[trigger] eps[i].name
            != #[trigger] eps[j].name
}

impl EntryPoints {
    pub open spec fn wf(&self) -> bool {
        names_unique(self@)
    }

    /// An empty table.
    pub fn new() -> (r: EntryPoints)
        ensures
            r.wf(),
            r@ == Seq::<EntryPointView>::empty(),
    {
        EntryPoints { points: Vec::new() }
    }

    /// The number of entry points.
    pub fn len(&self) -> (r: usize)
        ensures
            r == self@.len(),
    {
        self.points.len()
    }

    /// The entry point at position `i`.
    pub fn get(&self, i: usize) -> (r: &EntryPoint)
        requires
            i < self@.len(),
        ensures
            r@ == self@[i as int],
    {
        &self.points[i]
    }

    /// The position of the entry point named `name`, if there is one.
    pub fn find(&self, name: &str) -> (r: Option<usize>)
        requires
            self.wf(),
        ensures
            r == None::<usize> <==> !has_entry_point(self@, name@),
            r matches Some(i) ==> i < self@.len() && self@[i as int].name == name@,
    {
        let mut i: usize = 0;
        while i < self.points.len()
            invariant
                i <= self@.len(),
                forall|j: int| 0 <= j < i ==> self@[j].name != name@,
            decreases self@.len() - i,
        {
            if str_eq(self.points[i].name.as_str(), name) {
                assert(self@[i as int].name == name@);
                return Some(i);
            }
            i = i + 1;
        }
        None
    }

    /// Whether an entry point named `name` is in the table.
    pub fn contains(&self, name: &str) -> (r: bool)
        requires
            self.wf(),
        ensures
            r == has_entry_point(self@, name@),
    {
        self.find(name).is_some()
    }

    /// Adds an entry point; one of the same name is replaced.
    pub fn add_entry_point(&mut self, entry_point: EntryPoint)
        requires
            old(self).wf(),
        ensures
            final(self).wf(),
            has_entry_point(old(self)@, entry_point@.name) ==> exists|i: int|
                0 <= i < old(self)@.len() && old(self)@[i].name == entry_point@.name
                    && final(self)@ == old(self)@.update(i, entry_point@),
            !has_entry_point(old(self)@, entry_point@.name) ==> final(self)@ == old(self)@.push(
                entry_point@,
            ),
    {
        match self.find(entry_point.name.as_str()) {
            Some(i) => {
                let ghost e = entry_point@;
                self.points.set(i, entry_point);
                assert(self@ == old(self)@.update(i as int, e));
            },
            None => {
                let ghost e = entry_point@;
                self.points.push(entry_point);
                assert(self@ == old(self)@.push(e));
            },
        }
    }
}

/// The map that a list of named keys stands for: a later entry overrides an
/// earlier one of the same name.
pub open spec fn keys_map(s: Seq<(Seq<char>, Key)>) -> Map<Seq<char>, Key>
    decreases s.len(),
{
    if s.len() == 0 {
        Map::empty()
    } else {
        keys_map(s.drop_last()).insert(s.last().0, s.last().1)
    }
}

proof fn lemma_keys_map_last(s: Seq<(Seq<char>, Key)>, j: int)
    requires
        0 <= j < s.len(),
        forall|i: int| j < i < s.len() ==> #[trigger] s[i].0 != s[j].0,
    ensures
        keys_map(s).contains_key(s[j].0),
        keys_map(s)[s[j].0] == s[j].1,
    decreases s.len(),
{
    if j < s.len() - 1 {
        let t = s.drop_last();
        assert forall|i: int| j < i < t.len() implies #[trigger] t[i].0 != t[j].0 by {
            assert(t[i] == s[i]);
        }
        lemma_keys_map_last(t, j);
        assert(s[s.len() - 1].0 != s[j].0);
    }
}

proof fn lemma_keys_map_absent(s: Seq<(Seq<char>, Key)>, k: Seq<char>)
    requires
        forall|i: int| 0 <= i < s.len() ==> #[trigger] s[i].0 != k,
    ensures
        !keys_map(s).contains_key(k),
    decreases s.len(),
{
    if s.len() > 0 {
        let t = s.drop_last();
        assert forall|i: int| 0 <= i < t.len() implies #[trigger] t[i].0 != k by {
            assert(t[i] == s[i]);
        }
        lemma_keys_map_absent(t, k);
        assert(s[s.len() - 1].0 != k);
    }
}

proof fn lemma_keys_map_update(s: Seq<(Seq<char>, Key)>, j: int, v: Key)
    requires
        0 <= j < s.len(),
        forall|i: int| j < i < s.len() ==> #[trigger] s[i].0 != s[j].0,
    ensures
        keys_map(s.update(j, (s[j].0, v))) == keys_map(s).insert(s[j].0, v),
    decreases s.len(),
{
    let k = s[j].0;
    let u = s.update(j, (k, v));
    if j == s.len() - 1 {
        assert(u.drop_last() == s.drop_last());
        assert(keys_map(u) =~= keys_map(s).insert(k, v));
    } else {
        let t = s.drop_last();
        assert forall|i: int| j < i < t.len() implies #[trigger] t[i].0 != t[j].0 by {
            assert(t[i] == s[i]);
        }
        lemma_keys_map_update(t, j, v);
        assert(u.drop_last() == t.update(j, (k, v)));
        assert(s[s.len() - 1].0 != k);
        assert(keys_map(u) =~= keys_map(s).insert(k, v));
    }
}

/// A namespace: names mapped to keys.
#[derive(Debug)]
pub struct NamedKeys {
    entries: Vec<(String, Key)>,
}

impl NamedKeys {
    pub closed spec fn entries_view(&self) -> Seq<(Seq<char>, Key)> {
        self.entries@.map_values(|e: (String, Key)| (e.0@, e.1))
    }
}

impl View for NamedKeys {
    type V = Map<Seq<char>, Key>;

    closed spec fn view(&self) -> Map<Seq<char>, Key> {
        keys_map(self.entries_view())
    }
}

impl NamedKeys {
    /// An empty namespace.
    pub fn new() -> (r: NamedKeys)
        ensures
            r@ == Map::<Seq<char>, Key>::empty(),
    {
        NamedKeys { entries: Vec::new() }
    }

    /// The position of the entry that holds `name`, if any.
    fn position(&self, name: &str) -> (r: Option<usize>)
        ensures
            r matches Some(j) ==> {
                &&& j < self.entries_view().len()
                &&& self.entries_view()[j as int].0 == name@
                &&& forall|i: int|
                    j < i < self.entries_view().len() ==> #[trigger] self.entries_view()[i].0
                        != name@
            },
            r == None::<usize> ==> forall|i: int|
                0 <= i < self.entries_view().len() ==> #[trigger] self.entries_view()[i].0
                    != name@,
    {
        let mut i: usize = self.entries.len();
        while i > 0
            invariant
                i <= self.entries_view().len(),
                forall|k: int|
                    i <= k < self.entries_view().len() ==> #[trigger] self.entries_view()[k].0
                        != name@,
            decreases i,
        {
            i = i - 1;
            if str_eq(self.entries[i].0.as_str(), name) {
                return Some(i);
            }
        }
        None
    }

    /// The key stored under `name`, if any.
    pub fn get(&self, name: &str) -> (r: Option<Key>)
        ensures
            r == (if self@.contains_key(name@) {
                Some(self@[name@])
            } else {
                None
            }),
    {
        match self.position(name) {
            Some(j) => {
                proof {
                    lemma_keys_map_last(self.entries_view(), j as int);
                }
                Some(self.entries[j].1)
            },
            None => {
                proof {
                    lemma_keys_map_absent(self.entries_view(), name@);
                }
                None
            },
        }
    }

    /// Whether a key is stored under `name`.
    pub fn contains_key(&self, name: &str) -> (r: bool)
        ensures
            r == self@.contains_key(name@),
    {
        self.get(name).is_some()
    }

    /// A copy of this namespace.
    pub fn duplicate(&self) -> (r: NamedKeys)
        ensures
            r@ == self@,
    {
        let mut entries: Vec<(String, Key)> = Vec::new();
        let mut i: usize = 0;
        while i < self.entries.len()
            invariant
                i <= self.entries@.len(),
                entries@.len() == i,
                forall|j: int| 0 <= j < i ==> (#[trigger] entries@[j]).0@ == self.entries@[j].0@
                    && entries@[j].1 == self.entries@[j].1,
            decreases self.entries@.len() - i,
        {
            let name = self.entries[i].0.clone();
            entries.push((name, self.entries[i].1));
            i = i + 1;
        }
        let r = NamedKeys { entries };
        assert(r.entries_view() =~= self.entries_view());
        r
    }

    /// Stores `key` under `name`, replacing what was there.
    pub fn insert(&mut self, name: &str, key: Key)
        ensures
            final(self)@ == old(self)@.insert(name@, key),
    {
        match self.position(name) {
            Some(j) => {
                let ghost s = self.entries_view();
                proof {
                    lemma_keys_map_update(s, j as int, key);
                }
                let entry = (name.to_owned(), key);
                self.entries.set(j, entry);
                assert(self.entries_view() == s.update(j as int, (s[j as int].0, key)));
            },
            None => {
                let ghost s = self.entries_view();
                self.entries.push((name.to_owned(), key));
                assert(self.entries_view().drop_last() == s);
            },
        }
    }
}

} // verus!
