//! The key-information store: it maps each key triple (application,
//! provider, key name) to the provider's identifier of the key.
use vstd::prelude::*;
use crate::requests::ProviderID;

verus! {

/// The identity under which a request runs; it namespaces key names.
#[derive(Debug)]
pub struct ApplicationName {
    name: String,
}

impl View for ApplicationName {
    type V = Seq<char>;

    closed spec fn view(&self) -> Seq<char> {
        self.name@
    }
}

impl ApplicationName {
    /// The application of the given name.
    pub fn new(name: String) -> (r: ApplicationName)
        ensures
            r@ == name@,
    {
        ApplicationName { name }
    }

    /// The name of the application.
    pub fn get_name(&self) -> (r: &String)
        ensures
            r@ == self@,
    {
        &self.name
    }

    /// A copy of the application name.
    pub fn duplicate(&self) -> (r: ApplicationName)
        ensures
            r@ == self@,
    {
        ApplicationName { name: self.name.clone() }
    }
}

/// What identifies a key in the store.
pub struct KeyTripleView {
    pub app: Seq<char>,
    pub provider: ProviderID,
    pub key: Seq<char>,
}

/// The identity of a key: the application that owns it, the provider that
/// holds it, and its name.
#[derive(Debug)]
pub struct KeyTriple {
    pub app_name: ApplicationName,
    pub provider_id: ProviderID,
    pub key_name: String,
}

impl View for KeyTriple {
    type V = KeyTripleView;

    open spec fn view(&self) -> KeyTripleView {
        KeyTripleView { app: self.app_name@, provider: self.provider_id, key: self.key_name@ }
    }
}

impl KeyTriple {
    /// The triple of the given parts.
    pub fn new(app_name: ApplicationName, provider_id: ProviderID, key_name: String) -> (r: KeyTriple)
        ensures
            r@ == (KeyTripleView { app: app_name@, provider: provider_id, key: key_name@ }),
    {
        KeyTriple { app_name, provider_id, key_name }
    }

    /// Whether two triples are equal in all three parts.
    pub fn same_as(&self, other: &KeyTriple) -> (r: bool)
        ensures
            r == (self@ == other@),
    {
        self.provider_id == other.provider_id && self.app_name.name == other.app_name.name
            && self.key_name == other.key_name
    }

    /// Whether the key is held by the given provider.
    pub fn belongs_to_provider(&self, provider_id: ProviderID) -> (r: bool)
        ensures
            r == (self@.provider == provider_id),
    {
        self.provider_id == provider_id
    }

    /// A copy of the triple.
    pub fn duplicate(&self) -> (r: KeyTriple)
        ensures
            r@ == self@,
    {
        KeyTriple {
            app_name: self.app_name.duplicate(),
            provider_id: self.provider_id,
            key_name: self.key_name.clone(),
        }
    }
}

/// The triples and key identifiers of a list of entries.
pub open spec fn entries_view(es: Seq<(KeyTriple, Vec<u8>)>) -> Seq<(KeyTripleView, Seq<u8>)> {
    es.map_values(|e: (KeyTriple, Vec<u8>)| (e.0@, e.1@))
}

/// No two entries have the same triple.
pub open spec fn unique_keys(es: Seq<(KeyTripleView, Seq<u8>)>) -> bool {
    forall|i: int, j: int|
        0 <= i < es.len() && 0 <= j < es.len() && #[trigger] es[i].0 == #[trigger] es[j].0 ==> i == j
}

/// Whether some entry has the triple.
pub open spec fn has_key(es: Seq<(KeyTripleView, Seq<u8>)>, t: KeyTripleView) -> bool {
    exists|i: int| 0 <= i < es.len() && #[trigger] es[i].0 == t
}

/// The map from triples to key identifiers that a list of entries holds.
pub open spec fn map_of(es: Seq<(KeyTripleView, Seq<u8>)>) -> Map<KeyTripleView, Seq<u8>> {
    Map::new(
        |t: KeyTripleView| has_key(es, t),
        |t: KeyTripleView| es[choose|i: int| 0 <= i < es.len() && #[trigger] es[i].0 == t].1,
    )
}

proof fn lemma_map_of_at(es: Seq<(KeyTripleView, Seq<u8>)>, i: int)
    requires
        unique_keys(es),
        0 <= i < es.len(),
    ensures
        map_of(es).contains_key(es[i].0),
        map_of(es)[es[i].0] == es[i].1,
{
    let t = es[i].0;
    assert(has_key(es, t));
    let j = choose|j: int| 0 <= j < es.len() && #[trigger] es[j].0 == t;
    assert(es[j].0 == es[i].0);
}

pub(crate) proof fn lemma_map_of_push(es: Seq<(KeyTripleView, Seq<u8>)>, t: KeyTripleView, v: Seq<u8>)
    requires
        unique_keys(es),
        !has_key(es, t),
    ensures
        unique_keys(es.push((t, v))),
        map_of(es.push((t, v))) == map_of(es).insert(t, v),
{
    let ns = es.push((t, v));
    assert forall|a: int, b: int|
        0 <= a < ns.len() && 0 <= b < ns.len() && #[trigger] ns[a].0 == #[trigger] ns[b].0 implies a
        == b by {
        if a < es.len() {
            assert(ns[a] == es[a]);
        }
        if b < es.len() {
            assert(ns[b] == es[b]);
        }
    }
    assert forall|k: KeyTripleView| map_of(es).insert(t, v).contains_key(k) implies #[trigger] has_key(ns, k) by {
        if k == t {
            assert(ns[es.len() as int].0 == k);
        } else {
            let j = choose|j: int| 0 <= j < es.len() && #[trigger] es[j].0 == k;
            assert(ns[j].0 == k);
        }
    }
    assert forall|k: KeyTripleView| #[trigger] has_key(ns, k) implies map_of(es).insert(t, v).contains_key(k) && map_of(ns)[k] == map_of(es).insert(t, v)[k] by {
        let j = choose|j: int| 0 <= j < ns.len() && #[trigger] ns[j].0 == k;
        lemma_map_of_at(ns, j);
        if j < es.len() {
            assert(es[j] == ns[j]);
            lemma_map_of_at(es, j);
        }
    }
    assert(map_of(ns) =~= map_of(es).insert(t, v));
}

proof fn lemma_map_of_remove(es: Seq<(KeyTripleView, Seq<u8>)>, i: int)
    requires
        unique_keys(es),
        0 <= i < es.len(),
    ensures
        unique_keys(es.remove(i)),
        map_of(es.remove(i)) == map_of(es).remove(es[i].0),
{
    let t = es[i].0;
    let ns = es.remove(i);
    assert forall|a: int| 0 <= a < ns.len() implies #[trigger] ns[a] == es[if a < i {
        a
    } else {
        a + 1
    }] by {}
    assert forall|a: int, b: int|
        0 <= a < ns.len() && 0 <= b < ns.len() && #[trigger] ns[a].0 == #[trigger] ns[b].0 implies a
        == b by {
        let a2 = if a < i { a } else { a + 1 };
        let b2 = if b < i { b } else { b + 1 };
        assert(ns[a] == es[a2] && ns[b] == es[b2]);
    }
    assert forall|k: KeyTripleView| map_of(es).remove(t).contains_key(k) implies #[trigger] has_key(ns, k) by {
        let j = choose|j: int| 0 <= j < es.len() && #[trigger] es[j].0 == k;
        assert(j != i);
        let j2 = if j < i { j } else { j - 1 };
        assert(ns[j2] == es[j]);
    }
    assert forall|k: KeyTripleView| #[trigger] has_key(ns, k) implies map_of(es).remove(t).contains_key(k) && map_of(ns)[k] == map_of(es).remove(t)[k] by {
        let j = choose|j: int| 0 <= j < ns.len() && #[trigger] ns[j].0 == k;
        let j2 = if j < i { j } else { j + 1 };
        assert(ns[j] == es[j2]);
        lemma_map_of_at(ns, j);
        lemma_map_of_at(es, j2);
    }
    assert(map_of(ns) =~= map_of(es).remove(t));
}

/// The store of key triples and key identifiers.
///
/// It keeps its mappings in memory; each mapping is also a file under the
/// mappings directory, named by `mapping_file_names`, which the caller writes
/// and removes.
pub struct OnDiskKeyIDManager {
    entries: Vec<(KeyTriple, Vec<u8>)>,
    mappings_dir_path: String,
}

impl View for OnDiskKeyIDManager {
    type V = Map<KeyTripleView, Seq<u8>>;

    closed spec fn view(&self) -> Map<KeyTripleView, Seq<u8>> {
        map_of(entries_view(self.entries@))
    }
}

impl OnDiskKeyIDManager {
    /// The store keeps each triple at most once.
    pub closed spec fn wf(&self) -> bool {
        unique_keys(entries_view(self.entries@))
    }

    /// The directory that holds the mapping files.
    pub closed spec fn spec_dir(&self) -> Seq<char> {
        self.mappings_dir_path@
    }

    /// An empty store over the given mappings directory.
    pub fn empty(mappings_dir_path: String) -> (r: OnDiskKeyIDManager)
        ensures
            r.wf(),
            r@ == Map::<KeyTripleView, Seq<u8>>::empty(),
            r.spec_dir() == mappings_dir_path@,
    {
        let r = OnDiskKeyIDManager { entries: Vec::new(), mappings_dir_path };
        assert(r@ =~= Map::<KeyTripleView, Seq<u8>>::empty());
        r
    }

    /// The directory that holds the mapping files.
    pub fn mappings_dir_path(&self) -> (r: &String)
        ensures
            r@ == self.spec_dir(),
    {
        &self.mappings_dir_path
    }

    /// The index of the entry of a triple, if it is stored.
    fn find(&self, key_triple: &KeyTriple) -> (r: Option<usize>)
        requires
            self.wf(),
        ensures
            match r {
                Some(i) => i < self.entries@.len() && self.entries@[i as int].0@ == key_triple@,
                None => !self@.contains_key(key_triple@),
            },
    {
        let mut i: usize = 0;
        while i < self.entries.len()
            invariant
                i <= self.entries@.len(),
                forall|j: int| 0 <= j < i ==> #[trigger] self.entries@[j].0@ != key_triple@,
            decreases self.entries@.len() - i,
        {
            if self.entries[i].0.same_as(key_triple) {
                return Some(i);
            }
            i = i + 1;
        }
        proof {
            let es = entries_view(self.entries@);
            if has_key(es, key_triple@) {
                let j = choose|j: int| 0 <= j < es.len() && #[trigger] es[j].0 == key_triple@;
                assert(self.entries@[j].0@ == key_triple@);
            }
        }
        None
    }

    /// The key identifier stored for a triple, if any.
    pub fn get(&self, key_triple: &KeyTriple) -> (r: Option<&Vec<u8>>)
        requires
            self.wf(),
        ensures
            match r {
                Some(id) => self@.contains_key(key_triple@) && self@[key_triple@] == id@,
                None => !self@.contains_key(key_triple@),
            },
    {
        match self.find(key_triple) {
            Some(i) => {
                proof {
                    lemma_map_of_at(entries_view(self.entries@), i as int);
                }
                Some(&self.entries[i].1)
            },
            None => None,
        }
    }

    /// Whether a triple is stored.
    pub fn contains(&self, key_triple: &KeyTriple) -> (r: bool)
        requires
            self.wf(),
        ensures
            r == self@.contains_key(key_triple@),
    {
        match self.find(key_triple) {
            Some(i) => {
                proof {
                    lemma_map_of_at(entries_view(self.entries@), i as int);
                }
                true
            },
            None => false,
        }
    }

    /// Stores the key identifier of a triple, replacing any earlier one, which
    /// is returned.
    pub fn insert(&mut self, key_triple: KeyTriple, key_id: Vec<u8>) -> (r: Option<Vec<u8>>)
        requires
            old(self).wf(),
        ensures
            final(self).wf(),
            final(self)@ == old(self)@.insert(key_triple@, key_id@),
            final(self).spec_dir() == old(self).spec_dir(),
            match r {
                Some(prev) => old(self)@.contains_key(key_triple@) && old(self)@[key_triple@]
                    == prev@,
                None => !old(self)@.contains_key(key_triple@),
            },
    {
        let ghost es = entries_view(self.entries@);
        match self.find(&key_triple) {
            Some(i) => {
                let ghost t = key_triple@;
                let ghost v = key_id@;
                proof {
                    lemma_map_of_at(es, i as int);
                    lemma_map_of_remove(es, i as int);
                    let rest = es.remove(i as int);
                    if has_key(rest, t) {
                        let j = choose|j: int| 0 <= j < rest.len() && #[trigger] rest[j].0 == t;
                        lemma_map_of_at(rest, j);
                    }
                    lemma_map_of_push(rest, t, v);
                    assert(map_of(es).remove(t).insert(t, v) =~= map_of(es).insert(t, v));
                }
                let (_, prev) = self.entries.remove(i);
                self.entries.push((key_triple, key_id));
                assert(entries_view(self.entries@) =~= es.remove(i as int).push((t, v)));
                Some(prev)
            },
            None => {
                proof {
                    if has_key(es, key_triple@) {
                        let j = choose|j: int| 0 <= j < es.len() && #[trigger] es[j].0 == key_triple@;
                        lemma_map_of_at(es, j);
                    }
                    lemma_map_of_push(es, key_triple@, key_id@);
                }
                let ghost t = key_triple@;
                let ghost v = key_id@;
                self.entries.push((key_triple, key_id));
                assert(entries_view(self.entries@) =~= es.push((t, v)));
                None
            },
        }
    }

    /// Removes the triple, returning its key identifier if it was stored.
    pub fn remove(&mut self, key_triple: &KeyTriple) -> (r: Option<Vec<u8>>)
        requires
            old(self).wf(),
        ensures
            final(self).wf(),
            final(self)@ == old(self)@.remove(key_triple@),
            final(self).spec_dir() == old(self).spec_dir(),
            match r {
                Some(prev) => old(self)@.contains_key(key_triple@) && old(self)@[key_triple@]
                    == prev@,
                None => !old(self)@.contains_key(key_triple@),
            },
    {
        let ghost es = entries_view(self.entries@);
        match self.find(key_triple) {
            Some(i) => {
                proof {
                    lemma_map_of_at(es, i as int);
                    lemma_map_of_remove(es, i as int);
                }
                let (_, prev) = self.entries.remove(i);
                assert(entries_view(self.entries@) =~= es.remove(i as int));
                Some(prev)
            },
            None => {
                assert(self@ =~= self@.remove(key_triple@));
                None
            },
        }
    }

    /// The triples stored for a provider.
    pub fn get_all(&self, provider_id: ProviderID) -> (r: Vec<KeyTriple>)
        requires
            self.wf(),
        ensures
            forall|t: KeyTripleView|
                (self@.contains_key(t) && t.provider == provider_id) <==> #[trigger] listed(r@, t),
            forall|x: int, y: int| 0 <= x < y < r@.len() ==> r@[x]@ != r@[y]@,
            r@.len() <= self@.dom().len(),
    {
        let mut out: Vec<KeyTriple> = Vec::new();
        let mut i: usize = 0;
        let ghost es = entries_view(self.entries@);
        while i < self.entries.len()
            invariant
                i <= self.entries@.len(),
                es == entries_view(self.entries@),
                unique_keys(es),
                out@.len() <= i,
                forall|t: KeyTripleView|
                    stored_before(es, i as int, t, provider_id) <==> #[trigger] listed(out@, t),
                forall|x: int, y: int| 0 <= x < y < out@.len() ==> out@[x]@ != out@[y]@,
            decreases self.entries@.len() - i,
        {
            let ghost before = out@;
            if self.entries[i].0.belongs_to_provider(provider_id) {
                proof {
                    let t = es[i as int].0;
                    if listed(before, t) {
                        assert(stored_before(es, i as int, t, provider_id));
                        let j = choose|j: int| 0 <= j < i && #[trigger] es[j].0 == t;
                        assert(es[j].0 == es[i as int].0);
                    }
                }
                out.push(self.entries[i].0.duplicate());
                proof {
                    assert forall|x: int, y: int| 0 <= x < y < out@.len() implies out@[x]@ != out@[y]@ by {
                        if y == before.len() {
                            assert(out@[x] == before[x]);
                            if before[x]@ == es[i as int].0 {
                                assert(listed(before, es[i as int].0));
                            }
                        } else {
                            assert(out@[x] == before[x] && out@[y] == before[y]);
                        }
                    }
                }
            }
            proof {
                assert forall|t: KeyTripleView|
                    stored_before(es, i + 1, t, provider_id) <==> #[trigger] listed(out@, t) by {
                    if stored_before(es, i + 1, t, provider_id) {
                        let j = choose|j: int| 0 <= j < i + 1 && #[trigger] es[j].0 == t;
                        if j < i {
                            assert(stored_before(es, i as int, t, provider_id));
                            assert(listed(before, t));
                            let k = choose|k: int| 0 <= k < before.len() && #[trigger] before[k]@ == t;
                            assert(out@[k] == before[k]);
                        } else {
                            assert(out@[out@.len() - 1]@ == t);
                        }
                    }
                    if listed(out@, t) {
                        let k = choose|k: int| 0 <= k < out@.len() && #[trigger] out@[k]@ == t;
                        if k < before.len() {
                            assert(before[k] == out@[k]);
                            assert(listed(before, t));
                        } else {
                            assert(es[i as int].0 == t);
                        }
                    }
                }
            }
            i = i + 1;
        }
        proof {
            assert forall|t: KeyTripleView|
                (self@.contains_key(t) && t.provider == provider_id) <==> #[trigger] listed(out@, t) by {
                if self@.contains_key(t) {
                    let j = choose|j: int| 0 <= j < es.len() && #[trigger] es[j].0 == t;
                }
            }
            lemma_dom_len(es);
        }
        out
    }
}

impl OnDiskKeyIDManager {
    /// The names of the keys that an application holds with a provider.
    pub fn list_keys(&self, app_name: &ApplicationName, provider_id: ProviderID) -> (r: Vec<String>)
        requires
            self.wf(),
        ensures
            forall|k: Seq<char>|
                self@.contains_key(KeyTripleView { app: app_name@, provider: provider_id, key: k })
                    <==> #[trigger] listed_str(r@, k),
    {
        let mut out: Vec<String> = Vec::new();
        let mut i: usize = 0;
        let ghost es = entries_view(self.entries@);
        while i < self.entries.len()
            invariant
                i <= self.entries@.len(),
                es == entries_view(self.entries@),
                forall|k: Seq<char>|
                    has_key(es.subrange(0, i as int), KeyTripleView { app: app_name@, provider: provider_id, key: k })
                        <==> #[trigger] listed_str(out@, k),
            decreases self.entries@.len() - i,
        {
            let ghost before = out@;
            let t = &self.entries[i].0;
            if t.provider_id == provider_id && t.app_name.name == app_name.name {
                out.push(t.key_name.clone());
            }
            proof {
                assert forall|k: Seq<char>|
                    has_key(es.subrange(0, i + 1), KeyTripleView { app: app_name@, provider: provider_id, key: k })
                        <==> #[trigger] listed_str(out@, k) by {
                    let kt = KeyTripleView { app: app_name@, provider: provider_id, key: k };
                    if has_key(es.subrange(0, i + 1), kt) {
                        let j = choose|j: int| 0 <= j < i + 1 && #[trigger] es.subrange(0, i + 1)[j].0 == kt;
                        if j < i {
                            assert(es.subrange(0, i as int)[j] == es.subrange(0, i + 1)[j]);
                            assert(has_key(es.subrange(0, i as int), kt));
                            assert(listed_str(before, k));
                            let m = choose|m: int| 0 <= m < before.len() && #[trigger] before[m]@ == k;
                            assert(out@[m] == before[m]);
                        } else {
                            assert(out@[out@.len() - 1]@ == k);
                        }
                    }
                    if listed_str(out@, k) {
                        let m = choose|m: int| 0 <= m < out@.len() && #[trigger] out@[m]@ == k;
                        if m < before.len() {
                            assert(before[m] == out@[m]);
                            assert(listed_str(before, k));
                            let j = choose|j: int| 0 <= j < i && #[trigger] es.subrange(0, i as int)[j].0 == kt;
                            assert(es.subrange(0, i + 1)[j] == es.subrange(0, i as int)[j]);
                        } else {
                            assert(es.subrange(0, i + 1)[i as int].0 == kt);
                        }
                    }
                }
            }
            i = i + 1;
        }
        assert(es.subrange(0, i as int) =~= es);
        out
    }

    /// The applications that hold at least one key, each once.
    pub fn list_clients(&self) -> (r: Vec<ApplicationName>)
        requires
            self.wf(),
        ensures
            forall|a: Seq<char>|
                (exists|t: KeyTripleView| #[trigger] self@.contains_key(t) && t.app == a) <==> #[trigger] listed_app(r@, a),
            forall|i: int, j: int| 0 <= i < j < r@.len() ==> r@[i]@ != r@[j]@,
    {
        let mut out: Vec<ApplicationName> = Vec::new();
        let mut i: usize = 0;
        let ghost es = entries_view(self.entries@);
        while i < self.entries.len()
            invariant
                i <= self.entries@.len(),
                es == entries_view(self.entries@),
                forall|a: Seq<char>|
                    (exists|j: int| 0 <= j < i && #[trigger] es[j].0.app == a) <==> #[trigger] listed_app(out@, a),
                forall|x: int, y: int| 0 <= x < y < out@.len() ==> out@[x]@ != out@[y]@,
            decreases self.entries@.len() - i,
        {
            let ghost before = out@;
            let name = &self.entries[i].0.app_name;
            let mut k: usize = 0;
            let mut seen = false;
            while k < out.len()
                invariant
                    k <= out@.len(),
                    out@ == before,
                    seen == exists|m: int| 0 <= m < k && #[trigger] out@[m]@ == name@,
                decreases out@.len() - k,
            {
                if out[k].name == name.name {
                    seen = true;
                }
                proof {
                    if out@[k as int]@ == name@ {
                        assert(exists|m: int| 0 <= m < k + 1 && #[trigger] out@[m]@ == name@);
                    }
                    if seen && out@[k as int]@ != name@ {
                        let m = choose|m: int| 0 <= m < k && #[trigger] out@[m]@ == name@;
                        assert(0 <= m < k + 1);
                    }
                }
                k = k + 1;
            }
            if !seen {
                out.push(name.duplicate());
            }
            proof {
                assert(es[i as int].0.app == name@);
                assert forall|a: Seq<char>|
                    (exists|j: int| 0 <= j < i + 1 && #[trigger] es[j].0.app == a) <==> #[trigger] listed_app(out@, a) by {
                    if exists|j: int| 0 <= j < i + 1 && #[trigger] es[j].0.app == a {
                        let j = choose|j: int| 0 <= j < i + 1 && #[trigger] es[j].0.app == a;
                        if j < i {
                            assert(listed_app(before, a));
                            let m = choose|m: int| 0 <= m < before.len() && #[trigger] before[m]@ == a;
                            assert(out@[m] == before[m]);
                        } else if seen {
                            let m = choose|m: int| 0 <= m < before.len() && #[trigger] before[m]@ == name@;
                            assert(out@[m] == before[m]);
                        } else {
                            assert(out@[out@.len() - 1]@ == a);
                        }
                    }
                    if listed_app(out@, a) {
                        let m = choose|m: int| 0 <= m < out@.len() && #[trigger] out@[m]@ == a;
                        if m < before.len() {
                            assert(before[m] == out@[m]);
                            assert(listed_app(before, a));
                        } else {
                            assert(es[i as int].0.app == a);
                        }
                    }
                }
                assert forall|x: int, y: int| 0 <= x < y < out@.len() implies out@[x]@ != out@[y]@ by {
                    if y == before.len() {
                        assert(out@[x] == before[x]);
                        assert(!(before[x]@ == name@)) by {
                            if before[x]@ == name@ {
                                assert(exists|m: int| 0 <= m < before.len() && #[trigger] before[m]@ == name@);
                            }
                        }
                    } else {
                        assert(out@[x] == before[x] && out@[y] == before[y]);
                    }
                }
            }
            i = i + 1;
        }
        proof {
            assert forall|a: Seq<char>|
                (exists|t: KeyTripleView| #[trigger] self@.contains_key(t) && t.app == a) <==> #[trigger] listed_app(out@, a) by {
                if exists|t: KeyTripleView| #[trigger] self@.contains_key(t) && t.app == a {
                    let t = choose|t: KeyTripleView| #[trigger] self@.contains_key(t) && t.app == a;
                    let j = choose|j: int| 0 <= j < es.len() && #[trigger] es[j].0 == t;
                    assert(es[j].0.app == a);
                }
                if listed_app(out@, a) {
                    let j = choose|j: int| 0 <= j < i && #[trigger] es[j].0.app == a;
                    assert(has_key(es, es[j].0));
                    assert(self@.contains_key(es[j].0));
                }
            }
        }
        out
    }
}

/// Whether some string of the list is `k`.
pub open spec fn listed_str(s: Seq<String>, k: Seq<char>) -> bool {
    exists|m: int| 0 <= m < s.len() && #[trigger] s[m]@ == k
}

/// Whether some application name of the list is `a`.
pub open spec fn listed_app(s: Seq<ApplicationName>, a: Seq<char>) -> bool {
    exists|m: int| 0 <= m < s.len() && #[trigger] s[m]@ == a
}

/// Whether some triple of the list is `t`.
pub open spec fn listed(s: Seq<KeyTriple>, t: KeyTripleView) -> bool {
    exists|k: int| 0 <= k < s.len() && #[trigger] s[k]@ == t
}

/// Whether one of the first `n` entries has the triple `t`, held by provider `p`.
pub open spec fn stored_before(
    es: Seq<(KeyTripleView, Seq<u8>)>,
    n: int,
    t: KeyTripleView,
    p: ProviderID,
) -> bool {
    t.provider == p && exists|j: int| 0 <= j < n && #[trigger] es[j].0 == t
}

/// After storing a key identifier for a triple the store gives that identifier
/// for it; after removing the triple it gives none; and storing keeps every
/// other triple as it was.
pub proof fn lemma_insert_get_remove(
    store: Map<KeyTripleView, Seq<u8>>,
    t: KeyTripleView,
    key_id: Seq<u8>,
    other: KeyTripleView,
)
    requires
        other != t,
    ensures
        store.insert(t, key_id).contains_key(t),
        store.insert(t, key_id)[t] == key_id,
        !store.insert(t, key_id).remove(t).contains_key(t),
        !store.remove(t).contains_key(t),
        store.insert(t, key_id).contains_key(other) == store.contains_key(other),
        store.contains_key(other) ==> store.insert(t, key_id)[other] == store[other],
{
}

proof fn lemma_dom_len(es: Seq<(KeyTripleView, Seq<u8>)>)
    requires
        unique_keys(es),
    ensures
        map_of(es).dom().finite(),
        map_of(es).dom().len() == es.len(),
    decreases es.len(),
{
    if es.len() == 0 {
        assert(map_of(es).dom() =~= Set::<KeyTripleView>::empty());
    } else {
        let init = es.drop_last();
        assert(unique_keys(init)) by {
            assert forall|a: int, b: int|
                0 <= a < init.len() && 0 <= b < init.len() && #[trigger] init[a].0 == #[trigger] init[b].0
                implies a == b by {
                assert(init[a] == es[a] && init[b] == es[b]);
            }
        }
        lemma_dom_len(init);
        let t = es.last().0;
        assert(!has_key(init, t)) by {
            if has_key(init, t) {
                let j = choose|j: int| 0 <= j < init.len() && #[trigger] init[j].0 == t;
                assert(es[j].0 == es[es.len() - 1].0);
            }
        }
        lemma_map_of_push(init, t, es.last().1);
        assert(init.push((t, es.last().1)) =~= es);
        assert(map_of(es).dom() =~= map_of(init).dom().insert(t));
    }
}

} // verus!
