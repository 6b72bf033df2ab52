//! Name registry: lets actors be found by human-readable names and by
//! hierarchical paths such as `/system/service/one`.
use crate::pid::Pid;
use vstd::prelude::*;

verus! {

#[verifier::external_type_specification]
#[verifier::external_body]
#[verifier::reject_recursive_types(K)]
#[verifier::reject_recursive_types(V)]
#[verifier::reject_recursive_types(S)]
pub struct ExDashMap<K, V, S>(dashmap::DashMap<K, V, S>);

/// The concurrent map that holds the registry's names.
pub type NameMap = dashmap::DashMap<String, Pid>;

/// The name-to-pid entries held by a `DashMap<String, Pid>`, keyed by the characters of each name.
pub uninterp spec fn name_table(m: NameMap) -> Map<Seq<char>, Pid>;

/// `DashMap::new`: the new map holds no entry.
#[verifier::external_body]
fn table_new() -> (table: NameMap)
    ensures
        name_table(table) == no_names(),
{
    dashmap::DashMap::new()
}

/// `DashMap::insert`: the key now maps to the value; other keys keep their values.
#[verifier::external_body]
fn table_insert(m: &mut NameMap, name: String, pid: Pid)
    ensures
        name_table(*final(m)) == name_table(*old(m)).insert(name@, pid),
{
    m.insert(name, pid);
}

/// `DashMap::get` with the value copied out: the value under the key, if any.
#[verifier::external_body]
fn table_get(m: &NameMap, name: &str) -> (r: Option<Pid>)
    ensures
        r == (if name_table(*m).contains_key(name@) {
            Some(name_table(*m)[name@])
        } else {
            None
        }),
{
    m.get(name).map(|e| *e)
}

/// `DashMap::remove`: the key no longer maps to anything; other keys keep their values.
#[verifier::external_body]
fn table_remove(m: &mut NameMap, name: &str)
    ensures
        name_table(*final(m)) == name_table(*old(m)).remove(name@),
{
    m.remove(name);
}

/// `DashMap::iter` collected into pairs: every entry exactly once, in the
/// order the shards are walked, which this contract leaves open.
#[verifier::external_body]
fn table_entries(m: &NameMap) -> (r: Vec<(String, Pid)>)
    ensures
        lists_exactly(r@, name_table(*m), |k: Seq<char>| true),
{
    m.iter().map(|e| (e.key().clone(), *e.value())).collect()
}

/// `out` lists exactly the entries of `table` whose key satisfies `keep`, each key once.
pub open spec fn lists_exactly(
    out: Seq<(String, Pid)>,
    table: Map<Seq<char>, Pid>,
    keep: spec_fn(Seq<char>) -> bool,
) -> bool {
    &&& forall|i: int|
        0 <= i < out.len() ==> {
            &&& table.contains_key(#[trigger] out[i].0@)
            &&& table[out[i].0@] == out[i].1
            &&& keep(out[i].0@)
        }
    &&& forall|k: Seq<char>|
        table.contains_key(k) && keep(k) ==> exists|i: int|
            0 <= i < out.len() && #[trigger] out[i].0@ == k
    &&& forall|i: int, j: int| 0 <= i < j < out.len() ==> out[i].0@ != out[j].0@
}

/// The table with no names in it.
pub open spec fn no_names() -> Map<Seq<char>, Pid> {
    Map::empty()
}

/// What a lookup of `name` in `table` gives.
pub open spec fn lookup(table: Map<Seq<char>, Pid>, name: Seq<char>) -> Option<Pid> {
    if table.contains_key(name) {
        Some(table[name])
    } else {
        None
    }
}

/// `p` without its trailing `/` characters.
pub open spec fn trim_trailing_slashes(p: Seq<char>) -> Seq<char>
    decreases p.len(),
{
    if p.len() > 0 && p.last() == '/' {
        trim_trailing_slashes(p.drop_last())
    } else {
        p
    }
}

/// `key` lies somewhere below the normalized prefix `norm` (the root, `norm`
/// empty, has every key below it).
pub open spec fn below(norm: Seq<char>, key: Seq<char>) -> bool {
    norm.len() == 0 || norm.push('/').is_prefix_of(key)
}

/// `key` lies exactly one level below the normalized prefix `norm`. Below the
/// root these are the keys with no `/` beyond an optional leading one.
pub open spec fn directly_below(norm: Seq<char>, key: Seq<char>) -> bool {
    if norm.len() == 0 {
        let tail = if key.len() > 0 && key[0] == '/' {
            key.drop_first()
        } else {
            key
        };
        !tail.contains('/')
    } else {
        &&& norm.push('/').is_prefix_of(key)
        &&& !key.skip(norm.len() as int + 1).contains('/')
    }
}

/// `key` is a descendant of the path `prefix` (trailing slashes of `prefix` are ignored).
pub open spec fn is_descendant(prefix: Seq<char>, key: Seq<char>) -> bool {
    below(trim_trailing_slashes(prefix), key)
}

/// `key` is a direct child of the path `prefix` (trailing slashes of `prefix` are ignored).
pub open spec fn is_direct_child(prefix: Seq<char>, key: Seq<char>) -> bool {
    directly_below(trim_trailing_slashes(prefix), key)
}

/// The characters of a string.
pub(crate) fn chars_of(s: &str) -> (v: Vec<char>)
    ensures
        v@ == s@,
{
    let mut v: Vec<char> = Vec::new();
    for c in it: s.chars()
        invariant
            v@ == it.seq().take(it.index() as int),
    {
        v.push(c);
    }
    assert(v@ =~= s@);
    v
}

/// Whether two strings hold the same characters.
pub(crate) fn same_text(a: &str, b: &str) -> (eq: bool)
    ensures
        eq == (a@ == b@),
{
    let x = chars_of(a);
    let y = chars_of(b);
    if x.len() != y.len() {
        return false;
    }
    let mut i: usize = 0;
    while i < x.len()
        invariant
            x@ == a@,
            y@ == b@,
            x.len() == y.len(),
            i <= x.len(),
            forall|j: int| 0 <= j < i ==> x@[j] == y@[j],
        decreases x.len() - i,
    {
        if x[i] != y[i] {
            assert(x@[i as int] != y@[i as int]);
            assert(a@ != b@) by {
                assert(a@[i as int] != b@[i as int]);
            }
            return false;
        }
        i = i + 1;
    }
    assert(x@ =~= y@);
    true
}

/// The characters of `prefix` with trailing slashes removed.
fn normalize(prefix: &str) -> (norm: Vec<char>)
    ensures
        norm@ == trim_trailing_slashes(prefix@),
{
    let mut v = chars_of(prefix);
    while v.len() > 0 && v[v.len() - 1] == '/'
        invariant
            trim_trailing_slashes(v@) == trim_trailing_slashes(prefix@),
        decreases v.len(),
    {
        assert(v@.drop_last() =~= v@.subrange(0, v.len() - 1));
        v.pop();
    }
    v
}

/// Whether `norm` followed by `/` is a prefix of `key`.
fn starts_below(norm: &Vec<char>, key: &Vec<char>) -> (b: bool)
    ensures
        b == norm@.push('/').is_prefix_of(key@),
{
    let n = norm.len();
    if key.len() <= n {
        return false;
    }
    let mut i: usize = 0;
    while i < n
        invariant
            n == norm.len(),
            n < key.len(),
            i <= n,
            forall|j: int| 0 <= j < i ==> norm@[j] == key@[j],
        decreases n - i,
    {
        if norm[i] != key[i] {
            assert(norm@.push('/')[i as int] != key@.subrange(0, n + 1)[i as int]);
            return false;
        }
        i = i + 1;
    }
    let r = key[n] == '/';
    if r {
        assert(norm@.push('/') =~= key@.subrange(0, n + 1));
    } else {
        assert(norm@.push('/')[n as int] != key@.subrange(0, n + 1)[n as int]);
    }
    r
}

/// Whether `key` holds a `/` at or after position `start`.
fn slash_from(key: &Vec<char>, start: usize) -> (b: bool)
    requires
        start <= key.len(),
    ensures
        b == key@.skip(start as int).contains('/'),
{
    let mut i = start;
    while i < key.len()
        invariant
            start <= i <= key.len(),
            forall|j: int| start <= j < i ==> key@[j] != '/',
        decreases key.len() - i,
    {
        if key[i] == '/' {
            assert(key@.skip(start as int)[i - start] == '/');
            return true;
        }
        i = i + 1;
    }
    assert forall|j: int| 0 <= j < key@.skip(start as int).len() implies key@.skip(
        start as int,
    )[j] != '/' by {
        assert(key@.skip(start as int)[j] == key@[start + j]);
    }
    false
}

/// Whether `key` is to be listed under the normalized prefix `norm`.
fn keeps(norm: &Vec<char>, key: &String, direct: bool) -> (b: bool)
    ensures
        b == (if direct {
            directly_below(norm@, key@)
        } else {
            below(norm@, key@)
        }),
{
    let k = chars_of(key.as_str());
    if !direct {
        norm.len() == 0 || starts_below(norm, &k)
    } else if norm.len() == 0 {
        if k.len() > 0 && k[0] == '/' {
            assert(k@.drop_first() =~= k@.skip(1));
            slash_from(&k, 1) == false
        } else {
            assert(k@ =~= k@.skip(0));
            slash_from(&k, 0) == false
        }
    } else {
        starts_below(norm, &k) && !slash_from(&k, norm.len() + 1)
    }
}

/// The entries of `entries` whose key is listed under `norm`, in their order.
fn select(entries: &Vec<(String, Pid)>, norm: &Vec<char>, direct: bool, Ghost(table): Ghost<
    Map<Seq<char>, Pid>,
>) -> (out: Vec<(String, Pid)>)
    requires
        lists_exactly(entries@, table, |k: Seq<char>| true),
    ensures
        lists_exactly(
            out@,
            table,
            |k: Seq<char>|
                if direct {
                    directly_below(norm@, k)
                } else {
                    below(norm@, k)
                },
        ),
{
    let ghost keep = |k: Seq<char>|
        if direct {
            directly_below(norm@, k)
        } else {
            below(norm@, k)
        };
    let mut out: Vec<(String, Pid)> = Vec::new();
    let ghost mut src: Seq<int> = Seq::empty();
    let mut i: usize = 0;
    while i < entries.len()
        invariant
            lists_exactly(entries@, table, |k: Seq<char>| true),
            keep == (|k: Seq<char>|
                if direct {
                    directly_below(norm@, k)
                } else {
                    below(norm@, k)
                }),
            i <= entries.len(),
            src.len() == out.len(),
            forall|j: int|
                0 <= j < out.len() ==> 0 <= #[trigger] src[j] < i && out@[j].0@ == entries@[src[j]].0@,
            forall|j: int|
                0 <= j < out.len() ==> {
                    &&& table.contains_key(#[trigger] out@[j].0@)
                    &&& table[out@[j].0@] == out@[j].1
                    &&& keep(out@[j].0@)
                },
            forall|t: int|
                0 <= t < i && keep(#[trigger] entries@[t].0@) ==> exists|j: int|
                    0 <= j < out.len() && out@[j].0@ == entries@[t].0@,
            forall|a: int, b: int| 0 <= a < b < out.len() ==> out@[a].0@ != out@[b].0@,
        decreases entries.len() - i,
    {
        let key = &entries[i].0;
        let b = keeps(norm, key, direct);
        assert(b == keep(entries@[i as int].0@));
        if b {
            let ghost before = out@;
            assert(table.contains_key(entries@[i as int].0@));
            assert(table[entries@[i as int].0@] == entries@[i as int].1);
            out.push((key.clone(), entries[i].1));
            assert(out@[out.len() - 1].0@ == entries@[i as int].0@);
            proof {
                assert forall|j: int| 0 <= j < out.len() implies {
                    &&& table.contains_key(#[trigger] out@[j].0@)
                    &&& table[out@[j].0@] == out@[j].1
                    &&& keep(out@[j].0@)
                } by {
                    if j < before.len() {
                        assert(out@[j] == before[j]);
                    }
                }
                src = src.push(i as int);
                assert forall|a: int, b: int| 0 <= a < b < out.len() implies out@[a].0@
                    != out@[b].0@ by {
                    if b == out.len() - 1 {
                        assert(out@[a].0@ == entries@[src[a]].0@);
                        assert(src[a] < i);
                    } else {
                        assert(out@[a] == before[a]);
                        assert(out@[b] == before[b]);
                    }
                }
                assert forall|t: int| 0 <= t < i + 1 && keep(#[trigger] entries@[t].0@) implies exists|
                    j: int,
                |
                    0 <= j < out.len() && out@[j].0@ == entries@[t].0@ by {
                    if t == i {
                        assert(out@[out.len() - 1].0@ == entries@[t].0@);
                    } else {
                        let j = choose|j: int| 0 <= j < before.len() && before[j].0@ == entries@[t].0@;
                        assert(out@[j] == before[j]);
                    }
                }
            }
        }
        i = i + 1;
    }
    assert forall|k: Seq<char>| table.contains_key(k) && keep(k) implies exists|j: int|
        0 <= j < out.len() && #[trigger] out@[j].0@ == k by {
        let t = choose|t: int| 0 <= t < entries.len() && #[trigger] entries@[t].0@ == k;
        assert(keep(entries@[t].0@));
    }
    out
}

/// Mapping of human-readable names (and hierarchical paths) to pids.
pub struct NameRegistry {
    names: NameMap,
}

impl View for NameRegistry {
    type V = Map<Seq<char>, Pid>;

    closed spec fn view(&self) -> Map<Seq<char>, Pid> {
        name_table(self.names)
    }
}

impl NameRegistry {
    /// Create a new, empty name registry.
    pub fn new() -> (r: Self)
        ensures
            r@ == no_names(),
    {
        NameRegistry { names: table_new() }
    }

    /// Register a PID under a specific name.
    /// If the name already exists, it will be overwritten.
    pub fn register(&mut self, name: String, pid: Pid)
        ensures
            final(self)@ == old(self)@.insert(name@, pid),
    {
        table_insert(&mut self.names, name, pid);
    }

    /// Retrieve the PID associated with a name.
    pub fn resolve(&self, name: &str) -> (r: Option<Pid>)
        ensures
            r == lookup(self@, name@),
    {
        table_get(&self.names, name)
    }

    /// Remove a name mapping.
    pub fn unregister(&mut self, name: &str)
        ensures
            final(self)@ == old(self)@.remove(name@),
    {
        table_remove(&mut self.names, name);
    }

    /// List registered entries whose path begins with `prefix`.
    /// If `prefix` is empty or "/" this returns all entries.
    pub fn list_children(&self, prefix: &str) -> (out: Vec<(String, Pid)>)
        ensures
            lists_exactly(out@, self@, |k: Seq<char>| is_descendant(prefix@, k)),
    {
        let norm = normalize(prefix);
        let entries = table_entries(&self.names);
        let out = select(&entries, &norm, false, Ghost(self@));
        assert(lists_exactly(out@, self@, |k: Seq<char>| is_descendant(prefix@, k))) by {
            assert forall|k: Seq<char>| is_descendant(prefix@, k) == below(norm@, k) by {}
        }
        out
    }

    /// List only direct children one level below `prefix`.
    /// For prefix `/a/b` entries returned will be `/a/b/child` but not `/a/b/child/grand`.
    pub fn list_direct_children(&self, prefix: &str) -> (out: Vec<(String, Pid)>)
        ensures
            lists_exactly(out@, self@, |k: Seq<char>| is_direct_child(prefix@, k)),
    {
        let norm = normalize(prefix);
        let entries = table_entries(&self.names);
        let out = select(&entries, &norm, true, Ghost(self@));
        assert(lists_exactly(out@, self@, |k: Seq<char>| is_direct_child(prefix@, k))) by {
            assert forall|k: Seq<char>| is_direct_child(prefix@, k) == directly_below(norm@, k) by {}
        }
        out
    }
}

/// Resolving a name just registered gives its pid; other names resolve as before.
pub proof fn lemma_resolve_after_register(
    table: Map<Seq<char>, Pid>,
    name: Seq<char>,
    pid: Pid,
    other: Seq<char>,
)
    ensures
        lookup(table.insert(name, pid), name) == Some(pid),
        other != name ==> lookup(table.insert(name, pid), other) == lookup(table, other),
{
}

/// Resolving a name just unregistered gives nothing; other names resolve as before.
pub proof fn lemma_resolve_after_unregister(
    table: Map<Seq<char>, Pid>,
    name: Seq<char>,
    other: Seq<char>,
)
    ensures
        lookup(table.remove(name), name) == None::<Pid>,
        other != name ==> lookup(table.remove(name), other) == lookup(table, other),
{
}

/// Every direct child of a path is also one of its descendants.
pub proof fn lemma_direct_child_is_descendant(prefix: Seq<char>, key: Seq<char>)
    ensures
        is_direct_child(prefix, key) ==> is_descendant(prefix, key),
{
}

/// The empty prefix and `/` both have every key as a descendant.
pub proof fn lemma_root_lists_everything(key: Seq<char>)
    ensures
        is_descendant(Seq::<char>::empty(), key),
        is_descendant(seq!['/'], key),
{
    assert(seq!['/'].drop_last() =~= Seq::<char>::empty());
    assert(trim_trailing_slashes(Seq::<char>::empty()) == Seq::<char>::empty());
}

/// A trailing `/` on the prefix changes neither listing.
pub proof fn lemma_trailing_slash_ignored(prefix: Seq<char>, key: Seq<char>)
    ensures
        is_descendant(prefix.push('/'), key) == is_descendant(prefix, key),
        is_direct_child(prefix.push('/'), key) == is_direct_child(prefix, key),
{
    assert(prefix.push('/').drop_last() =~= prefix);
}

/// The direct children of the root (`""` or `"/"`) are exactly the keys
/// with no `/` anywhere but, optionally, at the very start.
pub proof fn lemma_root_direct_children(key: Seq<char>)
    ensures
        is_direct_child(Seq::<char>::empty(), key) == (forall|i: int|
            1 <= i < key.len() ==> #[trigger] key[i] != '/'),
        is_direct_child(seq!['/'], key) == (forall|i: int|
            1 <= i < key.len() ==> #[trigger] key[i] != '/'),
{
    assert(seq!['/'].drop_last() =~= Seq::<char>::empty());
    assert(trim_trailing_slashes(Seq::<char>::empty()) == Seq::<char>::empty());
    assert(trim_trailing_slashes(seq!['/']) == Seq::<char>::empty());
    let tail = if key.len() > 0 && key[0] == '/' {
        key.drop_first()
    } else {
        key
    };
    if tail.contains('/') {
        let j = choose|j: int| 0 <= j < tail.len() && tail[j] == '/';
        if key.len() > 0 && key[0] == '/' {
            assert(key[j + 1] == '/');
        } else {
            assert(key[j] == '/');
            assert(j != 0);
        }
    } else {
        assert forall|i: int| 1 <= i < key.len() implies #[trigger] key[i] != '/' by {
            if key[0] == '/' {
                assert(tail[i - 1] == key[i]);
            } else {
                assert(tail[i] == key[i]);
            }
        }
    }
}

/// Below a path with something other than slashes in it, the direct children
/// are the path, one `/`, and a name with no `/` in it; deeper keys are not.
pub proof fn lemma_direct_child_shape(prefix: Seq<char>, name: Seq<char>)
    requires
        trim_trailing_slashes(prefix).len() > 0,
    ensures
        is_direct_child(prefix, trim_trailing_slashes(prefix).push('/') + name) == !name.contains('/'),
{
    let norm = trim_trailing_slashes(prefix);
    let key = norm.push('/') + name;
    assert(norm.push('/').is_prefix_of(key)) by {
        assert forall|i: int| 0 <= i < norm.push('/').len() implies norm.push('/')[i] == key[i] by {}
    }
    assert(key.skip(norm.len() as int + 1) =~= name);
}

} // verus!
