//! Ingestion: template ids, Drain parsing and the template cache.

use vstd::prelude::*;
use vstd::string::StringSliceAdditionalSpecFns;
use vstd::string::*;
use std::collections::HashMap;

verus! {

/// FNV-1a 64-bit offset basis.
pub const FNV_OFFSET: u64 = 0xcbf29ce484222325;

/// FNV-1a 64-bit prime.
pub const FNV_PRIME: u64 = 0x100000001b3;

/// One FNV-1a round: xor the byte in, then multiply by the prime modulo 2^64.
pub open spec fn fnv_step(h: u64, b: u8) -> u64 {
    (((h ^ (b as u64)) as nat * FNV_PRIME as nat) % 0x1_0000_0000_0000_0000nat) as u64
}

/// FNV-1a 64-bit hash of a byte sequence.
pub open spec fn fnv1a64_spec(bytes: Seq<u8>) -> u64
    decreases bytes.len(),
{
    if bytes.len() == 0 {
        FNV_OFFSET
    } else {
        fnv_step(fnv1a64_spec(bytes.drop_last()), bytes.last())
    }
}

/// FNV-1a hashes every byte: the empty input hashes to the offset basis,
/// and appending any byte `b` to any input `s`, however long, xors `b` into
/// the hash of `s` and multiplies by the prime modulo 2^64.
pub proof fn lemma_fnv1a64_hashes_every_byte(s: Seq<u8>, b: u8)
    ensures
        fnv1a64_spec(Seq::<u8>::empty()) == 0xcbf29ce484222325u64,
        fnv1a64_spec(s.push(b)) as nat
            == ((fnv1a64_spec(s) ^ (b as u64)) as nat * 0x100000001b3nat) % 0x1_0000_0000_0000_0000nat,
{
    assert(s.push(b).drop_last() =~= s);
    assert(s.push(b).last() == b);
}

/// The id of a template: FNV-1a 64-bit over its UTF-8 bytes.
pub open spec fn template_id_spec(t: Seq<char>) -> u64 {
    fnv1a64_spec(vstd::utf8::encode_utf8(t))
}

/// FNV-1a 64-bit over the UTF-8 bytes of `s` — a deterministic template id,
/// independent of process restarts.
pub fn fnv1a64(s: &str) -> (h: u64)
    ensures
        h == fnv1a64_spec(s.spec_bytes()),
{
    let bytes = s.as_bytes();
    let mut h: u64 = FNV_OFFSET;
    let mut i: usize = 0;
    while i < bytes.len()
        invariant
            i <= bytes@.len(),
            bytes@ == s.spec_bytes(),
            h == fnv1a64_spec(bytes@.take(i as int)),
        decreases bytes@.len() - i,
    {
        assert(bytes@.take(i as int + 1).drop_last() =~= bytes@.take(i as int));
        h = (h ^ (bytes[i] as u64)).wrapping_mul(FNV_PRIME);
        i = i + 1;
    }
    assert(bytes@.take(i as int) =~= bytes@);
    h
}

/// Structured log after Drain parsing.
pub struct ParsedLog {
    pub template_id: u64,
    /// Static template where dynamic variables are replaced by `<*>` (the
    /// embedding input).
    pub template: String,
    /// Ingestion time, Unix seconds.
    pub timestamp: i64,
    pub metadata: HashMap<String, String>,
    pub raw_message: String,
}

impl ParsedLog {
    /// The parse of `line`: its template is the one Drain assigned
    /// (`drain_template`), or the line itself when Drain gave none; its id is
    /// the FNV-1a hash of the template.
    pub fn new(line: &str, drain_template: Option<String>, timestamp: i64) -> (p: ParsedLog)
        ensures
            p.template@ == (match drain_template {
                Some(t) => t@,
                None => line@,
            }),
            p.template_id == template_id_spec(p.template@),
            p.timestamp == timestamp,
            p.metadata@ == Map::<String, String>::empty(),
            p.raw_message@ == line@,
    {
        let template = match drain_template {
            Some(t) => t,
            None => String::from_str(line),
        };
        let template_id = fnv1a64(template.as_str());
        ParsedLog {
            template_id,
            template,
            timestamp,
            metadata: HashMap::new(),
            raw_message: String::from_str(line),
        }
    }
}

/// `lru::LruCache`, declared for use in signatures and fields.
#[verifier::external_type_specification]
#[verifier::external_body]
#[verifier::reject_recursive_types(K)]
#[verifier::reject_recursive_types(V)]
#[verifier::reject_recursive_types(S)]
pub struct ExLruCache<K, V, S>(lru::LruCache<K, V, S>);

/// `lru::DefaultHasher`, the hash builder of an `LruCache`.
#[verifier::external_type_specification]
#[verifier::external_body]
pub struct ExLruDefaultHasher(lru::DefaultHasher);

/// The entries (key, value) an LRU cache holds, most recently used first.
pub uninterp spec fn lru_contents(c: lru::LruCache<u64, u64>) -> Seq<(u64, u64)>;

/// The capacity an LRU cache was made with.
pub uninterp spec fn lru_capacity(c: lru::LruCache<u64, u64>) -> nat;

/// No key occurs twice.
pub open spec fn keys_distinct(c: Seq<(u64, u64)>) -> bool {
    forall|i: int, j: int| 0 <= i < j < c.len() ==> #[trigger] c[i].0 != #[trigger] c[j].0
}

/// Whether some entry has key `k`.
pub open spec fn has_key(c: Seq<(u64, u64)>, k: u64) -> bool {
    exists|i: int| 0 <= i < c.len() && #[trigger] c[i].0 == k
}

/// The position of the entry with key `k` (meaningful when there is one).
pub open spec fn key_pos(c: Seq<(u64, u64)>, k: u64) -> int {
    choose|i: int| 0 <= i < c.len() && #[trigger] c[i].0 == k
}

/// The entries after the one at position `i` is used: moved to the front.
pub open spec fn touched(c: Seq<(u64, u64)>, i: int) -> Seq<(u64, u64)> {
    seq![c[i]] + c.remove(i)
}

/// `LruCache::new(cap)`: an empty cache that holds at most `cap` entries.
#[verifier::external_body]
fn lru_new(cap: usize) -> (cache: lru::LruCache<u64, u64>)
    requires
        cap >= 1,
    ensures
        lru_contents(cache) == Seq::<(u64, u64)>::empty(),
        lru_capacity(cache) == cap,
{
    lru::LruCache::new(std::num::NonZeroUsize::new(cap).unwrap())
}

/// `LruCache::get(&k)`: the value stored under `k`, if any; that entry
/// becomes the most recently used, the others keep their order. Keys stay
/// distinct and the cache within its capacity, as in every `LruCache`.
#[verifier::external_body]
fn lru_get(c: &mut lru::LruCache<u64, u64>, k: u64) -> (r: Option<u64>)
    ensures
        lru_capacity(*final(c)) == lru_capacity(*old(c)),
        keys_distinct(lru_contents(*final(c))),
        lru_contents(*final(c)).len() <= lru_capacity(*final(c)),
        has_key(lru_contents(*old(c)), k) ==> r == Some(lru_contents(*old(c))[key_pos(lru_contents(*old(c)), k)].1)
            && lru_contents(*final(c)) == touched(lru_contents(*old(c)), key_pos(lru_contents(*old(c)), k)),
        !has_key(lru_contents(*old(c)), k) ==> r is None && lru_contents(*final(c)) == lru_contents(*old(c)),
{
    c.get(&k).copied()
}

/// `LruCache::push(k, v)`: stores `v` under `k` as the most recently used
/// entry. An entry already under `k` is replaced and returned; otherwise,
/// when the cache is full, the least recently used entry (the last) is
/// evicted and returned; otherwise nothing is returned. Keys stay distinct
/// and the cache within its capacity, as in every `LruCache`.
#[verifier::external_body]
fn lru_push(c: &mut lru::LruCache<u64, u64>, k: u64, v: u64) -> (r: Option<(u64, u64)>)
    ensures
        lru_capacity(*final(c)) == lru_capacity(*old(c)),
        keys_distinct(lru_contents(*final(c))),
        lru_contents(*final(c)).len() <= lru_capacity(*final(c)),
        has_key(lru_contents(*old(c)), k) ==> r == Some((k, lru_contents(*old(c))[key_pos(lru_contents(*old(c)), k)].1))
            && lru_contents(*final(c)) == seq![(k, v)] + lru_contents(*old(c)).remove(key_pos(lru_contents(*old(c)), k)),
        !has_key(lru_contents(*old(c)), k) && lru_contents(*old(c)).len() < lru_capacity(*old(c))
            ==> r is None && lru_contents(*final(c)) == seq![(k, v)] + lru_contents(*old(c)),
        !has_key(lru_contents(*old(c)), k) && lru_contents(*old(c)).len() == lru_capacity(*old(c))
            ==> r == Some(lru_contents(*old(c)).last())
                && lru_contents(*final(c)) == seq![(k, v)] + lru_contents(*old(c)).drop_last(),
{
    c.push(k, v)
}

/// Abstract template cache: its entries (template id, slot), most recently
/// used first; the capacity; and the lookup counters.
pub struct TemplateCacheView {
    pub contents: Seq<(u64, u64)>,
    pub capacity: nat,
    pub hits: u64,
    pub misses: u64,
}

/// LRU cache from template id to the slot holding that template's vector,
/// with hit and miss counters. A hit means the embedding is skipped.
///
/// The vectors themselves are kept by the caller; the cache holds the slot
/// number that stands for each one.
pub struct TemplateCache {
    cache: lru::LruCache<u64, u64>,
    hits: u64,
    misses: u64,
}

impl View for TemplateCache {
    type V = TemplateCacheView;

    closed spec fn view(&self) -> TemplateCacheView {
        TemplateCacheView {
            contents: lru_contents(self.cache),
            capacity: lru_capacity(self.cache),
            hits: self.hits,
            misses: self.misses,
        }
    }
}

/// The cache after looking up `id`, and the slot found: a hit makes the
/// template the most recently used.
pub open spec fn lookup_spec(v: TemplateCacheView, id: u64) -> (TemplateCacheView, Option<u64>) {
    if has_key(v.contents, id) {
        let i = key_pos(v.contents, id);
        (TemplateCacheView { hits: (v.hits + 1) as u64, contents: touched(v.contents, i), ..v }, Some(v.contents[i].1))
    } else {
        (TemplateCacheView { misses: (v.misses + 1) as u64, ..v }, None)
    }
}

/// The cache after storing `slot` for `id`, and the slot that no longer has
/// an entry: the one `id` had, or, when the cache was full, the one of the
/// least recently used template, which is evicted.
pub open spec fn insert_spec(v: TemplateCacheView, id: u64, slot: u64) -> (TemplateCacheView, Option<u64>) {
    if has_key(v.contents, id) {
        let i = key_pos(v.contents, id);
        (TemplateCacheView { contents: seq![(id, slot)] + v.contents.remove(i), ..v }, Some(v.contents[i].1))
    } else if v.contents.len() < v.capacity {
        (TemplateCacheView { contents: seq![(id, slot)] + v.contents, ..v }, None)
    } else {
        (TemplateCacheView { contents: seq![(id, slot)] + v.contents.drop_last(), ..v }, Some(v.contents.last().1))
    }
}

impl TemplateCache {
    /// Default capacity in templates.
    pub const DEFAULT_CAPACITY: usize = 10_000;

    /// Holds at most its capacity (at least 1) of entries with distinct ids.
    pub closed spec fn wf(&self) -> bool {
        &&& keys_distinct(lru_contents(self.cache))
        &&& lru_contents(self.cache).len() <= lru_capacity(self.cache)
        &&& lru_capacity(self.cache) >= 1
    }

    /// An empty cache of the default capacity.
    pub fn new() -> (c: TemplateCache)
        ensures
            c.wf(),
            c@.contents == Seq::<(u64, u64)>::empty(),
            c@.capacity == Self::DEFAULT_CAPACITY,
            c@.hits == 0,
            c@.misses == 0,
    {
        Self::with_capacity(Self::DEFAULT_CAPACITY)
    }

    /// An empty cache holding at most `capacity` templates (at least one).
    pub fn with_capacity(capacity: usize) -> (c: TemplateCache)
        ensures
            c.wf(),
            c@.contents == Seq::<(u64, u64)>::empty(),
            c@.capacity == (if capacity == 0 { 1 } else { capacity }),
            c@.hits == 0,
            c@.misses == 0,
    {
        let cap = if capacity == 0 { 1 } else { capacity };
        let cache = lru_new(cap);
        TemplateCache { cache, hits: 0, misses: 0 }
    }

    /// Looks up the slot of template `template_id`, counting a hit or a
    /// miss. `None` means the caller must embed the template and `insert` it.
    pub fn lookup(&mut self, template_id: u64) -> (r: Option<u64>)
        requires
            old(self).wf(),
            old(self)@.hits < u64::MAX,
            old(self)@.misses < u64::MAX,
        ensures
            final(self).wf(),
            (final(self)@, r) == lookup_spec(old(self)@, template_id),
    {
        let r = lru_get(&mut self.cache, template_id);
        match r {
            Some(_) => self.hits = self.hits + 1,
            None => self.misses = self.misses + 1,
        }
        r
    }

    /// Looks up a parsed line's template, handing the parse back with the
    /// slot found (see [`Self::lookup`]).
    pub fn parse_and_lookup(&mut self, parsed: ParsedLog) -> (r: (ParsedLog, Option<u64>))
        requires
            old(self).wf(),
            old(self)@.hits < u64::MAX,
            old(self)@.misses < u64::MAX,
        ensures
            final(self).wf(),
            r.0 == parsed,
            (final(self)@, r.1) == lookup_spec(old(self)@, parsed.template_id),
    {
        let found = self.lookup(parsed.template_id);
        (parsed, found)
    }

    /// Looks up a template by its text, without parsing a line again.
    pub fn lookup_by_template(&mut self, template: &str) -> (r: Option<u64>)
        requires
            old(self).wf(),
            old(self)@.hits < u64::MAX,
            old(self)@.misses < u64::MAX,
        ensures
            final(self).wf(),
            (final(self)@, r) == lookup_spec(old(self)@, template_id_spec(template@)),
    {
        let id = fnv1a64(template);
        self.lookup(id)
    }

    /// Stores the slot of template `template_id` as the most recently used.
    /// Returns the slot that no longer has an entry: the one this template
    /// had before, or, when the cache was full, the one of the least
    /// recently used template, which is evicted.
    pub fn insert(&mut self, template_id: u64, slot: u64) -> (freed: Option<u64>)
        requires
            old(self).wf(),
        ensures
            final(self).wf(),
            (final(self)@, freed) == insert_spec(old(self)@, template_id, slot),
    {
        let r = lru_push(&mut self.cache, template_id, slot);
        match r {
            Some((_, freed)) => Some(freed),
            None => None,
        }
    }

    /// Lookups that found their template.
    pub fn hits(&self) -> (n: u64)
        ensures
            n == self@.hits,
    {
        self.hits
    }

    /// Lookups that did not.
    pub fn misses(&self) -> (n: u64)
        ensures
            n == self@.misses,
    {
        self.misses
    }
}

/// Read after write: right after a template's slot is stored, looking the
/// template up is a hit that returns that slot.
pub proof fn lemma_lookup_after_insert_hits(v: TemplateCacheView, id: u64, slot: u64)
    requires
        keys_distinct(insert_spec(v, id, slot).0.contents),
        v.hits < u64::MAX,
    ensures
        lookup_spec(insert_spec(v, id, slot).0, id).1 == Some(slot),
        lookup_spec(insert_spec(v, id, slot).0, id).0.hits == v.hits + 1,
{
    let w = insert_spec(v, id, slot).0;
    assert(w.contents[0] == (id, slot));
    assert(w.contents[0].0 == id);
    assert(has_key(w.contents, id));
    let i = key_pos(w.contents, id);
    if i != 0 {
        assert(w.contents[0].0 == w.contents[i].0);
    }
}

/// Least recently used goes first: when the cache is full and a new
/// template is stored, the evicted slot is that of the template used
/// longest ago, and every other template stays.
pub proof fn lemma_insert_evicts_least_recent(v: TemplateCacheView, id: u64, slot: u64)
    requires
        !has_key(v.contents, id),
        v.contents.len() == v.capacity,
        v.capacity >= 1,
    ensures
        insert_spec(v, id, slot).1 == Some(v.contents.last().1),
        insert_spec(v, id, slot).0.contents == seq![(id, slot)] + v.contents.drop_last(),
{
}

} // verus!
