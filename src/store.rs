//! The field store: a bag of uniquely keyed values with move-based merging.

use vstd::prelude::*;

verus! {

/// A value recorded on a span or an event.
#[derive(Debug)]
pub enum FieldValue {
    Null,
    Bool(bool),
    Int(i64),
    UInt(u64),
    /// A floating-point number, held as its IEEE 754 bit pattern.
    Float(u64),
    Text(String),
    Object(Store),
}

/// Key/value fields with unique keys; writing a key again replaces its value.
#[derive(Debug)]
pub struct Store {
    entries: Vec<(String, FieldValue)>,
}

pub type Fields = Map<Seq<char>, FieldValue>;

/// `v` is the text `t`.
pub open spec fn text_is(v: FieldValue, t: Seq<char>) -> bool {
    v is Text && v->Text_0@ == t
}

/// Outcome of a move between stores: `Hit` when something moved.
pub enum Goal<F> {
    Hit,
    Miss(F),
}

impl<F> Goal<F> {
    /// Runs `op` on the value of a `Miss`; a `Hit` stays a `Hit`.
    pub fn or_else<T, O: FnOnce(F) -> Goal<T>>(self, op: O) -> (r: Goal<T>)
        requires
            self matches Goal::Miss(x) ==> op.requires((x,)),
        ensures
            match self {
                Goal::Hit => r is Hit,
                Goal::Miss(x) => op.ensures((x,), r),
            },
    {
        match self {
            Goal::Hit => Goal::Hit,
            Goal::Miss(input) => op(input),
        }
    }

    /// Maps the value of a `Miss`; a `Hit` stays a `Hit`.
    pub fn map_miss<T, O: FnOnce(F) -> T>(self, op: O) -> (r: Goal<T>)
        requires
            self matches Goal::Miss(x) ==> op.requires((x,)),
        ensures
            match self {
                Goal::Hit => r is Hit,
                Goal::Miss(x) => r matches Goal::Miss(y) && op.ensures((x,), y),
            },
    {
        match self {
            Goal::Hit => Goal::Hit,
            Goal::Miss(input) => Goal::Miss(op(input)),
        }
    }

    pub fn is_hit(&self) -> (r: bool)
        ensures
            r == (self is Hit),
    {
        match self {
            Goal::Hit => true,
            Goal::Miss(_) => false,
        }
    }
}

/// A renaming rule: a key made of `prefix` followed by one of the `allowed`
/// names is renamed to that name.
pub struct PortBy<'a> {
    pub prefix: &'a str,
    pub allowed: Vec<&'a str>,
}

impl<'a> PortBy<'a> {
    pub open spec fn allows(&self, name: Seq<char>) -> bool {
        exists|i: int| 0 <= i < self.allowed@.len() && self.allowed@[i]@ == name
    }

    /// Whether the rule renames `key`.
    pub open spec fn renames(&self, key: Seq<char>) -> bool {
        self.prefix@.is_prefix_of(key) && self.allows(key.skip(self.prefix@.len() as int))
    }

    /// The names the rule allows.
    pub open spec fn names(&self) -> Set<Seq<char>> {
        Set::new(|name: Seq<char>| self.allows(name))
    }

    /// The fields of `m` that the rule renames, under their new names.
    pub open spec fn matched(&self, m: Fields) -> Fields {
        renamed_fields(self.prefix@, self.names(), m)
    }

    /// The fields of `m` that the rule leaves in place.
    pub open spec fn unmatched(&self, m: Fields) -> Fields {
        unrenamed_fields(self.prefix@, self.names(), m)
    }

    /// The new name of `key`, if the rule renames it.
    pub fn rename(&self, key: &str) -> (r: Option<String>)
        ensures
            r.is_some() == self.renames(key@),
            r matches Some(n) ==> n@ == key@.skip(self.prefix@.len() as int),
    {
        match crate::text::strip_prefix(key, self.prefix) {
            None => None,
            Some(rest) => {
                let mut i: usize = 0;
                while i < self.allowed.len()
                    invariant
                        i <= self.allowed@.len(),
                        rest@ == key@.skip(self.prefix@.len() as int),
                        self.prefix@.is_prefix_of(key@),
                        forall|j: int| 0 <= j < i ==> self.allowed@[j]@ != rest@,
                    decreases self.allowed@.len() - i,
                {
                    if crate::text::text_eq(self.allowed[i], rest) {
                        assert(self.allowed@[i as int]@ == rest@);
                        return Some(String::from_str(rest));
                    }
                    i = i + 1;
                }
                None
            },
        }
    }
}

/// The fields of `m` whose key is `prefix` followed by one of `names`,
/// keyed by that name.
pub open spec fn renamed_fields(prefix: Seq<char>, names: Set<Seq<char>>, m: Fields) -> Fields {
    Map::new(
        |name: Seq<char>| names.contains(name) && m.contains_key(prefix + name),
        |name: Seq<char>| m[prefix + name],
    )
}

/// The fields of `m` whose key is not `prefix` followed by one of `names`.
pub open spec fn unrenamed_fields(prefix: Seq<char>, names: Set<Seq<char>>, m: Fields) -> Fields {
    Map::new(
        |k: Seq<char>| m.contains_key(k) && !(prefix.is_prefix_of(k) && names.contains(k.skip(prefix.len() as int))),
        |k: Seq<char>| m[k],
    )
}

/// `p` starts `p + n`, and what follows it there is `n`.
pub proof fn lemma_concat_prefix(p: Seq<char>, n: Seq<char>)
    ensures
        p.is_prefix_of(p + n),
        (p + n).skip(p.len() as int) == n,
{
    assert((p + n).skip(p.len() as int) =~= n);
    assert((p + n).subrange(0, p.len() as int) =~= p);
}

/// When nothing is renamed, everything stays in place.
pub proof fn lemma_nothing_renamed(prefix: Seq<char>, names: Set<Seq<char>>, m: Fields)
    requires
        renamed_fields(prefix, names, m) == Fields::empty(),
    ensures
        unrenamed_fields(prefix, names, m) == m,
{
    assert forall|k: Seq<char>| m.contains_key(k) implies
        !(prefix.is_prefix_of(k) && names.contains(k.skip(prefix.len() as int))) by {
        if prefix.is_prefix_of(k) && names.contains(k.skip(prefix.len() as int)) {
            let name = k.skip(prefix.len() as int);
            assert(k =~= prefix + name) by {
                assert(k.subrange(0, prefix.len() as int) =~= prefix);
            }
            assert(renamed_fields(prefix, names, m).contains_key(name));
        }
    }
    assert(unrenamed_fields(prefix, names, m) =~= m);
}

/// A rule renaming `prefix` + `name` to `name` for each allowed name.
pub fn by_prefix<'a>(prefix: &'a str, allowed: Vec<&'a str>) -> (r: PortBy<'a>)
    ensures
        r.prefix == prefix,
        r.allowed@ == allowed@,
{
    PortBy { prefix, allowed }
}

proof fn lemma_renames_split(rule: &PortBy, name: Seq<char>)
    ensures
        rule.renames(rule.prefix@ + name) == rule.allows(name),
{
    let p = rule.prefix@;
    assert((p + name).skip(p.len() as int) =~= name);
    assert(p.is_prefix_of(p + name)) by {
        assert((p + name).subrange(0, p.len() as int) =~= p);
    }
}

proof fn lemma_renames_join(rule: &PortBy, key: Seq<char>)
    requires
        rule.renames(key),
    ensures
        key == rule.prefix@ + key.skip(rule.prefix@.len() as int),
{
    let p = rule.prefix@;
    assert(key =~= p + key.skip(p.len() as int)) by {
        assert(key.subrange(0, p.len() as int) =~= p);
    }
}

/// The keys named in `keys`.
pub open spec fn key_set(keys: Seq<&str>) -> Set<Seq<char>> {
    Set::new(|k: Seq<char>| exists|i: int| 0 <= i < keys.len() && keys[i]@ == k)
}

pub open spec fn distinct_keys(s: Seq<(String, FieldValue)>) -> bool {
    forall|i: int, j: int|
        0 <= i < s.len() && 0 <= j < s.len() && i != j ==> s[i].0@ != s[j].0@
}

pub open spec fn map_of(s: Seq<(String, FieldValue)>) -> Fields
    decreases s.len(),
{
    if s.len() == 0 {
        Map::empty()
    } else {
        map_of(s.drop_last()).insert(s.last().0@, s.last().1)
    }
}

pub open spec fn has_key(s: Seq<(String, FieldValue)>, k: Seq<char>) -> bool {
    exists|i: int| 0 <= i < s.len() && s[i].0@ == k
}

proof fn lemma_map_of_contains(s: Seq<(String, FieldValue)>, k: Seq<char>)
    ensures
        map_of(s).contains_key(k) == has_key(s, k),
    decreases s.len(),
{
    if s.len() > 0 {
        let p = s.drop_last();
        lemma_map_of_contains(p, k);
        if has_key(p, k) {
            let i = choose|i: int| 0 <= i < p.len() && p[i].0@ == k;
            assert(s[i] == p[i]);
        }
        if has_key(s, k) && k != s.last().0@ {
            let i = choose|i: int| 0 <= i < s.len() && s[i].0@ == k;
            assert(p[i] == s[i]);
        }
        if k == s.last().0@ {
            assert(s[s.len() - 1].0@ == k);
        }
    }
}

proof fn lemma_map_of_finite(s: Seq<(String, FieldValue)>)
    requires
        distinct_keys(s),
    ensures
        map_of(s).dom().finite(),
        map_of(s).len() == s.len(),
    decreases s.len(),
{
    if s.len() > 0 {
        let p = s.drop_last();
        assert(distinct_keys(p)) by {
            assert forall|i: int, j: int|
                0 <= i < p.len() && 0 <= j < p.len() && i != j implies p[i].0@ != p[j].0@ by {
                assert(p[i] == s[i] && p[j] == s[j]);
            }
        }
        lemma_map_of_finite(p);
        lemma_map_of_contains(p, s.last().0@);
        if has_key(p, s.last().0@) {
            let i = choose|i: int| 0 <= i < p.len() && p[i].0@ == s.last().0@;
            assert(s[i] == p[i]);
        }
    }
}

proof fn lemma_map_of_value(s: Seq<(String, FieldValue)>, i: int)
    requires
        distinct_keys(s),
        0 <= i < s.len(),
    ensures
        map_of(s).contains_key(s[i].0@),
        map_of(s)[s[i].0@] == s[i].1,
    decreases s.len(),
{
    let p = s.drop_last();
    if i < s.len() - 1 {
        assert(distinct_keys(p)) by {
            assert forall|a: int, b: int|
                0 <= a < p.len() && 0 <= b < p.len() && a != b implies p[a].0@ != p[b].0@ by {
                assert(p[a] == s[a] && p[b] == s[b]);
            }
        }
        assert(p[i] == s[i]);
        lemma_map_of_value(p, i);
        assert(s[i].0@ != s[s.len() - 1].0@);
    }
}

/// Two key-distinct sequences with the same keys and the same value under
/// each key describe the same fields.
proof fn lemma_map_of_ext(s: Seq<(String, FieldValue)>, m: Fields)
    requires
        distinct_keys(s),
        forall|k: Seq<char>| has_key(s, k) == m.contains_key(k),
        forall|i: int| 0 <= i < s.len() ==> m[#[trigger] s[i].0@] == s[i].1,
    ensures
        map_of(s) == m,
{
    assert forall|k: Seq<char>| map_of(s).contains_key(k) == m.contains_key(k) by {
        lemma_map_of_contains(s, k);
    }
    assert forall|k: Seq<char>| #[trigger] map_of(s).contains_key(k) implies map_of(s)[k] == m[k] by {
        lemma_map_of_contains(s, k);
        let i = choose|i: int| 0 <= i < s.len() && s[i].0@ == k;
        lemma_map_of_value(s, i);
    }
    assert(map_of(s) =~= m);
}

impl View for Store {
    type V = Fields;

    closed spec fn view(&self) -> Fields {
        map_of(self.entries@)
    }
}

impl Store {
    /// The store's entries hold each key once.
    pub closed spec fn wf(&self) -> bool {
        distinct_keys(self.entries@)
    }

    /// An empty store.
    pub fn new() -> (r: Store)
        ensures
            r.wf(),
            r@ == Fields::empty(),
    {
        Store { entries: Vec::new() }
    }

    /// Number of fields.
    pub fn len(&self) -> (r: usize)
        requires
            self.wf(),
        ensures
            self@.dom().finite(),
            r == self@.len(),
    {
        proof {
            lemma_map_of_finite(self.entries@);
        }
        self.entries.len()
    }

    /// Whether the store holds no field.
    pub fn is_empty(&self) -> (r: bool)
        requires
            self.wf(),
        ensures
            r == (self@ == Fields::empty()),
    {
        proof {
            lemma_map_of_finite(self.entries@);
            if self.entries@.len() > 0 {
                lemma_map_of_value(self.entries@, 0);
            }
        }
        if self.entries.len() == 0 {
            assert(self@ =~= Fields::empty());
            true
        } else {
            false
        }
    }

    /// Position of `key` among the entries, if present.
    fn find(&self, key: &str) -> (r: Option<usize>)
        requires
            self.wf(),
        ensures
            match r {
                Some(i) => i < self.entries@.len() && self.entries@[i as int].0@ == key@,
                None => !self@.contains_key(key@),
            },
    {
        let mut i: usize = 0;
        while i < self.entries.len()
            invariant
                i <= self.entries@.len(),
                forall|j: int| 0 <= j < i ==> self.entries@[j].0@ != key@,
            decreases self.entries@.len() - i,
        {
            if crate::text::text_eq(self.entries[i].0.as_str(), key) {
                return Some(i);
            }
            i = i + 1;
        }
        proof {
            lemma_map_of_contains(self.entries@, key@);
        }
        None
    }

    /// The value under `key`, if any.
    pub fn get(&self, key: &str) -> (r: Option<&FieldValue>)
        requires
            self.wf(),
        ensures
            match r {
                Some(v) => self@.contains_key(key@) && self@[key@] == *v,
                None => !self@.contains_key(key@),
            },
    {
        match self.find(key) {
            Some(i) => {
                proof {
                    lemma_map_of_value(self.entries@, i as int);
                }
                Some(&self.entries[i].1)
            },
            None => None,
        }
    }

    /// Writes `value` under `key`, replacing any earlier value.
    pub fn insert(&mut self, key: String, value: FieldValue)
        requires
            old(self).wf(),
        ensures
            final(self).wf(),
            final(self)@ == old(self)@.insert(key@, value),
    {
        let ghost before = self.entries@;
        let ghost k = key@;
        let ghost v = value;
        match self.find(key.as_str()) {
            Some(i) => {
                self.entries.set(i, (key, value));
                proof {
                    let after = self.entries@;
                    assert(distinct_keys(after)) by {
                        assert forall|a: int, b: int|
                            0 <= a < after.len() && 0 <= b < after.len() && a != b
                            implies after[a].0@ != after[b].0@ by {
                            assert(after[a].0@ == before[a].0@);
                            assert(after[b].0@ == before[b].0@);
                        }
                    }
                    assert forall|kk: Seq<char>|
                        has_key(after, kk) == map_of(before).insert(k, v).contains_key(kk) by {
                        lemma_map_of_contains(before, kk);
                        if has_key(before, kk) {
                            let j = choose|j: int| 0 <= j < before.len() && before[j].0@ == kk;
                            assert(after[j].0@ == kk);
                        }
                        if has_key(after, kk) {
                            let j = choose|j: int| 0 <= j < after.len() && after[j].0@ == kk;
                            assert(before[j].0@ == kk);
                        }
                    }
                    assert forall|j: int| 0 <= j < after.len() implies
                        map_of(before).insert(k, v)[#[trigger] after[j].0@] == after[j].1 by {
                        if j != i {
                            lemma_map_of_value(before, j);
                            assert(after[j] == before[j]);
                        }
                    }
                    lemma_map_of_ext(after, map_of(before).insert(k, v));
                }
            },
            None => {
                self.entries.push((key, value));
                proof {
                    let after = self.entries@;
                    assert(after.drop_last() =~= before);
                    lemma_map_of_contains(before, k);
                    assert(distinct_keys(after)) by {
                        assert forall|a: int, b: int|
                            0 <= a < after.len() && 0 <= b < after.len() && a != b
                            implies after[a].0@ != after[b].0@ by {
                            if a < before.len() && b < before.len() {
                                assert(after[a] == before[a] && after[b] == before[b]);
                            } else if a < before.len() {
                                assert(after[a] == before[a]);
                            } else {
                                assert(after[b] == before[b]);
                            }
                        }
                    }
                }
            },
        }
    }

    /// Takes the entry under `key` out of the store.
    pub fn remove_entry(&mut self, key: &str) -> (r: Option<(String, FieldValue)>)
        requires
            old(self).wf(),
        ensures
            final(self).wf(),
            final(self)@ == old(self)@.remove(key@),
            match r {
                Some((k, v)) => old(self)@.contains_key(key@) && k@ == key@ && v == old(self)@[key@],
                None => !old(self)@.contains_key(key@),
            },
    {
        let ghost before = self.entries@;
        match self.find(key) {
            Some(i) => {
                proof {
                    lemma_map_of_value(before, i as int);
                }
                let e = self.entries.remove(i);
                proof {
                    let after = self.entries@;
                    let m = map_of(before).remove(key@);
                    assert(distinct_keys(after)) by {
                        assert forall|a: int, b: int|
                            0 <= a < after.len() && 0 <= b < after.len() && a != b
                            implies after[a].0@ != after[b].0@ by {
                            let a2 = if a < i { a } else { a + 1 };
                            let b2 = if b < i { b } else { b + 1 };
                            assert(after[a] == before[a2] && after[b] == before[b2]);
                        }
                    }
                    assert forall|kk: Seq<char>| has_key(after, kk) == m.contains_key(kk) by {
                        lemma_map_of_contains(before, kk);
                        if has_key(after, kk) {
                            let j = choose|j: int| 0 <= j < after.len() && after[j].0@ == kk;
                            let j2 = if j < i { j } else { j + 1 };
                            assert(before[j2] == after[j]);
                            assert(j2 != i);
                        }
                        if m.contains_key(kk) {
                            let j = choose|j: int| 0 <= j < before.len() && before[j].0@ == kk;
                            assert(j != i);
                            let j2 = if j < i { j } else { j - 1 };
                            assert(after[j2] == before[j]);
                        }
                    }
                    assert forall|j: int| 0 <= j < after.len() implies
                        m[#[trigger] after[j].0@] == after[j].1 by {
                        let j2 = if j < i { j } else { j + 1 };
                        assert(before[j2] == after[j]);
                        lemma_map_of_value(before, j2);
                    }
                    lemma_map_of_ext(after, m);
                }
                Some(e)
            },
            None => {
                assert(map_of(before).remove(key@) =~= map_of(before));
                None
            },
        }
    }
}


proof fn lemma_key_set_step(keys: Seq<&str>, i: int)
    requires
        0 <= i < keys.len(),
    ensures
        key_set(keys.take(i + 1)) == key_set(keys.take(i)).insert(keys[i]@),
{
    let a = keys.take(i + 1);
    let b = keys.take(i);
    assert forall|k: Seq<char>| key_set(a).contains(k) == key_set(b).insert(keys[i]@).contains(k) by {
        if key_set(a).contains(k) {
            let j = choose|j: int| 0 <= j < a.len() && a[j]@ == k;
            if j < i {
                assert(b[j] == a[j]);
            }
        }
        if key_set(b).contains(k) {
            let j = choose|j: int| 0 <= j < b.len() && b[j]@ == k;
            assert(a[j] == b[j]);
        }
        if k == keys[i]@ {
            assert(a[i] == keys[i]);
        }
    }
    assert(key_set(a) =~= key_set(b).insert(keys[i]@));
}

/// Removing the last entry of a key-distinct sequence removes its key.
proof fn lemma_map_of_pop(s: Seq<(String, FieldValue)>)
    requires
        distinct_keys(s),
        s.len() > 0,
    ensures
        distinct_keys(s.drop_last()),
        !map_of(s.drop_last()).contains_key(s.last().0@),
        map_of(s) == map_of(s.drop_last()).insert(s.last().0@, s.last().1),
{
    let p = s.drop_last();
    assert(distinct_keys(p)) by {
        assert forall|a: int, b: int|
            0 <= a < p.len() && 0 <= b < p.len() && a != b implies p[a].0@ != p[b].0@ by {
            assert(p[a] == s[a] && p[b] == s[b]);
        }
    }
    lemma_map_of_contains(p, s.last().0@);
    if has_key(p, s.last().0@) {
        let j = choose|j: int| 0 <= j < p.len() && p[j].0@ == s.last().0@;
        assert(s[j] == p[j]);
    }
}

impl Store {
    /// Every value is a scalar: no field holds a nested store.
    pub open spec fn is_flat(&self) -> bool {
        forall|k: Seq<char>| #[trigger] self@.contains_key(k) ==> !(self@[k] is Object)
    }

    /// Whether every value is a scalar.
    pub fn all_scalar(&self) -> (r: bool)
        requires
            self.wf(),
        ensures
            r == self.is_flat(),
    {
        let mut i: usize = 0;
        while i < self.entries.len()
            invariant
                self.wf(),
                i <= self.entries@.len(),
                forall|j: int| 0 <= j < i ==> !(self.entries@[j].1 is Object),
            decreases self.entries@.len() - i,
        {
            if let FieldValue::Object(_) = &self.entries[i].1 {
                proof {
                    lemma_map_of_value(self.entries@, i as int);
                }
                assert(self@.contains_key(self.entries@[i as int].0@));
                return false;
            }
            i = i + 1;
        }
        assert forall|k: Seq<char>| #[trigger] self@.contains_key(k) implies !(self@[k] is Object) by {
            lemma_map_of_contains(self.entries@, k);
            let j = choose|j: int| 0 <= j < self.entries@.len() && self.entries@[j].0@ == k;
            lemma_map_of_value(self.entries@, j);
        }
        true
    }

    /// The entries, each key once, in no particular order.
    pub fn fields(&self) -> (r: &Vec<(String, FieldValue)>)
        requires
            self.wf(),
        ensures
            distinct_keys(r@),
            map_of(r@) == self@,
    {
        &self.entries
    }

    /// Moves the fields named in `keys` out of `from` into this store; a
    /// `Hit` when at least one of them was there.
    pub fn port(&mut self, from: &mut Store, keys: Vec<&str>) -> (r: Goal<()>)
        requires
            old(self).wf(),
            old(from).wf(),
        ensures
            final(self).wf(),
            final(from).wf(),
            final(self)@ == old(self)@.union_prefer_right(old(from)@.restrict(key_set(keys@))),
            final(from)@ == old(from)@.remove_keys(key_set(keys@)),
            (r is Hit) == exists|i: int|
                0 <= i < keys@.len() && old(from)@.contains_key(#[trigger] keys@[i]@),
    {
        let ghost s0 = self@;
        let ghost f0 = from@;
        let mut hit = false;
        let mut i: usize = 0;
        assert(key_set(keys@.take(0)) =~= Set::empty());
        assert(f0.restrict(Set::empty()) =~= Fields::empty());
        assert(s0.union_prefer_right(Fields::empty()) =~= s0);
        assert(f0.remove_keys(Set::empty()) =~= f0);
        while i < keys.len()
            invariant
                i <= keys@.len(),
                self.wf(),
                from.wf(),
                self@ == s0.union_prefer_right(f0.restrict(key_set(keys@.take(i as int)))),
                from@ == f0.remove_keys(key_set(keys@.take(i as int))),
                hit == exists|j: int| 0 <= j < i && f0.contains_key(#[trigger] keys@[j]@),
            decreases keys@.len() - i,
        {
            let k = keys[i];
            let ghost taken = key_set(keys@.take(i as int));
            proof {
                lemma_key_set_step(keys@, i as int);
            }
            let ghost had = from@.contains_key(k@);
            match from.remove_entry(k) {
                Some((key, value)) => {
                    self.insert(key, value);
                    hit = true;
                },
                None => {},
            }
            proof {
                let next = taken.insert(k@);
                assert(self@ =~= s0.union_prefer_right(f0.restrict(next)));
                assert(from@ =~= f0.remove_keys(next));
                if f0.contains_key(k@) && !had {
                    let j = choose|j: int| 0 <= j < keys@.take(i as int).len()
                        && keys@.take(i as int)[j]@ == k@;
                    assert(keys@[j] == keys@.take(i as int)[j]);
                }
                assert(keys@[i as int] == k);
            }
            i = i + 1;
        }
        assert(keys@.take(keys@.len() as int) =~= keys@);
        if hit {
            Goal::Hit
        } else {
            Goal::Miss(())
        }
    }

    /// Moves every field of `from` into this store; on a shared key the
    /// value from `from` wins.
    pub fn port_all(&mut self, from: &mut Store)
        requires
            old(self).wf(),
            old(from).wf(),
        ensures
            final(self).wf(),
            final(from).wf(),
            final(self)@ == old(self)@.union_prefer_right(old(from)@),
            final(from)@ == Fields::empty(),
    {
        let ghost target = self@.union_prefer_right(from@);
        while from.entries.len() > 0
            invariant
                self.wf(),
                from.wf(),
                self@.union_prefer_right(from@) == target,
            decreases from.entries@.len(),
        {
            let ghost before = from.entries@;
            proof {
                lemma_map_of_pop(before);
            }
            let (k, v) = from.entries.pop().unwrap();
            assert(from.entries@ == before.drop_last());
            self.insert(k, v);
            assert(self@.union_prefer_right(from@) =~= target);
        }
        assert(from@ =~= Fields::empty());
        assert(self@.union_prefer_right(from@) =~= self@);
    }

    /// Moves the fields of `from` that `rule` renames into this store under
    /// their new names; a `Hit` when at least one moved.
    pub fn port_by(&mut self, from: &mut Store, rule: &PortBy) -> (r: Goal<()>)
        requires
            old(self).wf(),
            old(from).wf(),
        ensures
            final(self).wf(),
            final(from).wf(),
            final(self)@ == old(self)@.union_prefer_right(rule.matched(old(from)@)),
            final(from)@ == rule.unmatched(old(from)@),
            (r is Hit) == (rule.matched(old(from)@) != Fields::empty()),
    {
        let ghost s0 = self@;
        let ghost f0 = from@;
        let mut rest: Vec<(String, FieldValue)> = Vec::new();
        std::mem::swap(&mut rest, &mut from.entries);
        let mut hit = false;
        assert(f0.remove_keys(map_of(rest@).dom()) =~= Fields::empty());
        assert(rule.matched(Fields::empty()) =~= Fields::empty());
        assert(rule.unmatched(Fields::empty()) =~= Fields::empty());
        assert(s0.union_prefer_right(Fields::empty()) =~= s0);
        assert(from@ =~= Fields::empty());
        while rest.len() > 0
            invariant
                self.wf(),
                from.wf(),
                distinct_keys(rest@),
                forall|k: Seq<char>| #[trigger] map_of(rest@).contains_key(k)
                    ==> f0.contains_key(k) && f0[k] == map_of(rest@)[k],
                self@ == s0.union_prefer_right(rule.matched(f0.remove_keys(map_of(rest@).dom()))),
                from@ == rule.unmatched(f0.remove_keys(map_of(rest@).dom())),
                hit == (rule.matched(f0.remove_keys(map_of(rest@).dom())) != Fields::empty()),
            decreases rest@.len(),
        {
            let ghost before = rest@;
            let ghost done = f0.remove_keys(map_of(before).dom());
            proof {
                lemma_map_of_pop(before);
            }
            let (k, v) = rest.pop().unwrap();
            assert(rest@ == before.drop_last());
            let ghost done2 = f0.remove_keys(map_of(rest@).dom());
            assert forall|x: Seq<char>| #[trigger] map_of(rest@).contains_key(x)
                implies f0.contains_key(x) && f0[x] == map_of(rest@)[x] by {
                assert(map_of(before).contains_key(x) && x != k@);
            }
            assert(map_of(before).contains_key(k@));
            assert(done2 =~= done.insert(k@, v));
            match rule.rename(k.as_str()) {
                Some(name) => {
                    proof {
                        lemma_renames_join(rule, k@);
                        assert forall|b: Seq<char>| rule.allows(b) && b != name@
                            implies rule.prefix@ + b != k@ by {
                            assert((rule.prefix@ + b).skip(rule.prefix@.len() as int) =~= b);
                        }
                        assert(rule.matched(done2) =~= rule.matched(done).insert(name@, v));
                        assert(rule.unmatched(done2) =~= rule.unmatched(done));
                        assert(rule.matched(done2).contains_key(name@));
                    }
                    self.insert(name, v);
                    hit = true;
                    assert(self@ =~= s0.union_prefer_right(rule.matched(done2)));
                },
                None => {
                    proof {
                        assert forall|b: Seq<char>| rule.allows(b)
                            implies rule.prefix@ + b != k@ by {
                            lemma_renames_split(rule, b);
                        }
                        assert(rule.matched(done2) =~= rule.matched(done));
                        assert(rule.unmatched(done2) =~= rule.unmatched(done).insert(k@, v));
                    }
                    from.insert(k, v);
                },
            }
        }
        assert(map_of(rest@).dom() =~= Set::empty());
        assert(f0.remove_keys(Set::empty()) =~= f0);
        if hit {
            Goal::Hit
        } else {
            Goal::Miss(())
        }
    }

    /// Nests `from` under `field`, unless `from` is empty.
    pub fn push(&mut self, field: &str, from: Store)
        requires
            old(self).wf(),
            from.wf(),
        ensures
            final(self).wf(),
            final(self)@ == if from@ == Fields::empty() {
                old(self)@
            } else {
                old(self)@.insert(field@, FieldValue::Object(from))
            },
    {
        if from.is_empty() {
            return;
        }
        self.insert(String::from_str(field), FieldValue::Object(from));
    }

    /// A copy of a store of scalars.
    pub fn copy(&self) -> (r: Store)
        requires
            self.wf(),
            self.is_flat(),
        ensures
            r.wf(),
            r@ == self@,
    {
        let mut out: Vec<(String, FieldValue)> = Vec::new();
        let mut i: usize = 0;
        while i < self.entries.len()
            invariant
                self.wf(),
                self.is_flat(),
                i <= self.entries@.len(),
                out@ == self.entries@.take(i as int),
            decreases self.entries@.len() - i,
        {
            let e = &self.entries[i];
            proof {
                lemma_map_of_value(self.entries@, i as int);
            }
            out.push((e.0.clone(), e.1.copy_scalar()));
            assert(out@ =~= self.entries@.take(i + 1));
            i = i + 1;
        }
        assert(out@ =~= self.entries@);
        Store { entries: out }
    }
}

impl FieldValue {
    /// A copy of a scalar value.
    pub fn copy_scalar(&self) -> (r: FieldValue)
        requires
            !(self is Object),
        ensures
            r == *self,
    {
        match self {
            FieldValue::Null => FieldValue::Null,
            FieldValue::Bool(b) => FieldValue::Bool(*b),
            FieldValue::Int(n) => FieldValue::Int(*n),
            FieldValue::UInt(n) => FieldValue::UInt(*n),
            FieldValue::Float(bits) => FieldValue::Float(*bits),
            FieldValue::Text(t) => FieldValue::Text(t.clone()),
            FieldValue::Object(_) => {
                proof {
                    assert(false);
                }
                FieldValue::Null
            },
        }
    }
}

impl Store {
    /// Records a signed integer under `field`.
    pub fn record_i64(&mut self, field: &str, value: i64)
        requires
            old(self).wf(),
        ensures
            final(self).wf(),
            final(self)@ == old(self)@.insert(field@, FieldValue::Int(value)),
            old(self).is_flat() ==> final(self).is_flat(),
    {
        self.insert(String::from_str(field), FieldValue::Int(value));
    }

    /// Records an unsigned integer under `field`.
    pub fn record_u64(&mut self, field: &str, value: u64)
        requires
            old(self).wf(),
        ensures
            final(self).wf(),
            final(self)@ == old(self)@.insert(field@, FieldValue::UInt(value)),
            old(self).is_flat() ==> final(self).is_flat(),
    {
        self.insert(String::from_str(field), FieldValue::UInt(value));
    }

    /// Records a floating-point number given by its bit pattern under `field`.
    pub fn record_f64_bits(&mut self, field: &str, bits: u64)
        requires
            old(self).wf(),
        ensures
            final(self).wf(),
            final(self)@ == old(self)@.insert(field@, FieldValue::Float(bits)),
            old(self).is_flat() ==> final(self).is_flat(),
    {
        self.insert(String::from_str(field), FieldValue::Float(bits));
    }

    /// Records a boolean under `field`.
    pub fn record_bool(&mut self, field: &str, value: bool)
        requires
            old(self).wf(),
        ensures
            final(self).wf(),
            final(self)@ == old(self)@.insert(field@, FieldValue::Bool(value)),
            old(self).is_flat() ==> final(self).is_flat(),
    {
        self.insert(String::from_str(field), FieldValue::Bool(value));
    }

    /// Records a string under `field`.
    pub fn record_str(&mut self, field: &str, value: &str)
        requires
            old(self).wf(),
        ensures
            final(self).wf(),
            final(self)@ == old(self)@.insert(field@, final(self)@[field@]),
            final(self)@[field@] is Text && final(self)@[field@]->Text_0@ == value@,
            old(self).is_flat() ==> final(self).is_flat(),
    {
        self.insert(String::from_str(field), FieldValue::Text(String::from_str(value)));
    }

    /// Records an error, given by its message under `field`.
    pub fn record_error(&mut self, field: &str, message: &str)
        requires
            old(self).wf(),
        ensures
            final(self).wf(),
            final(self)@ == old(self)@.insert(field@, final(self)@[field@]),
            final(self)@[field@] is Text && final(self)@[field@]->Text_0@ == message@,
            old(self).is_flat() ==> final(self).is_flat(),
    {
        self.insert(String::from_str(field), FieldValue::Text(String::from_str(message)));
    }

    /// Records a value given by its debug rendering under `field`.
    pub fn record_debug(&mut self, field: &str, rendered: &str)
        requires
            old(self).wf(),
        ensures
            final(self).wf(),
            final(self)@ == old(self)@.insert(field@, final(self)@[field@]),
            final(self)@[field@] is Text && final(self)@[field@]->Text_0@ == rendered@,
            old(self).is_flat() ==> final(self).is_flat(),
    {
        self.insert(String::from_str(field), FieldValue::Text(String::from_str(rendered)));
    }
}

} // verus!
