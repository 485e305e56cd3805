//! The sounds a soundboard offers: the key each sound file gets, which files
//! are sounds, and the bank that finds a sound by its key.
use vstd::prelude::*;

use crate::stream::PlayBuf;
use crate::text::str_eq;

verus! {

/// What `slugify::slugify(text, "", "-", None)` makes of `text`:
/// transliterated to ASCII, lower-cased, runs of other characters turned
/// into single dashes.
pub uninterp spec fn slug(text: Seq<char>) -> Seq<char>;

/// A character that a slug may hold: a lower-case ASCII letter, a digit, or
/// the dash that separates words.
pub open spec fn is_slug_char(c: char) -> bool {
    ('a' <= c <= 'z') || ('0' <= c <= '9') || c == '-'
}

/// Calls `slugify::slugify(text, "", "-", None)`, the expansion of
/// `slugify!(text)`. Claimed: the result is `slug(text@)`, a function of the
/// text alone, and holds only characters that `is_slug_char` accepts (its
/// source keeps `a..=z`, `0..=9` and the separator, nothing else).
#[verifier::external_body]
fn slugify_text(text: &str) -> (r: String)
    ensures
        r@ == slug(text@),
        forall|i: int| 0 <= i < r@.len() ==> is_slug_char(#[trigger] r@[i]),
{
    slugify::slugify(text, "", "-", None)
}

/// The key under which the sound file named `file_name` is offered: the
/// slug of its name.
pub fn sound_key(file_name: &str) -> (r: String)
    ensures
        r@ == slug(file_name@),
        forall|i: int| 0 <= i < r@.len() ==> is_slug_char(#[trigger] r@[i]),
{
    slugify_text(file_name)
}

/// The name of the file that keeps the sounds directory in place and is no
/// sound.
pub open spec fn placeholder_name() -> Seq<char> {
    "__placeholder__"@
}

/// Whether a file of the sounds directory named `file_name` is a sound:
/// every file but the placeholder is.
pub fn is_sound_file(file_name: &str) -> (r: bool)
    ensures
        r == (file_name@ != placeholder_name()),
{
    !str_eq(file_name, "__placeholder__")
}

/// The keys of a list of entries, in order.
pub open spec fn entry_keys(s: Seq<(String, PlayBuf)>) -> Seq<Seq<char>> {
    s.map_values(|e: (String, PlayBuf)| e.0@)
}

/// No key stands twice among the entries.
pub open spec fn keys_distinct(s: Seq<(String, PlayBuf)>) -> bool {
    forall|i: int, j: int| 0 <= i < s.len() && 0 <= j < s.len() && i != j ==> #[trigger] s[i].0@ != #[trigger] s[j].0@
}

/// The map from key to sound that a list of entries stands for.
pub open spec fn entries_map(s: Seq<(String, PlayBuf)>) -> Map<Seq<char>, PlayBuf>
    decreases s.len(),
{
    if s.len() == 0 {
        Map::empty()
    } else {
        entries_map(s.drop_last()).insert(s.last().0@, s.last().1)
    }
}

/// The keys of the map are the keys of the entries.
proof fn lemma_entries_map_dom(s: Seq<(String, PlayBuf)>)
    ensures
        forall|k: Seq<char>| #[trigger] entries_map(s).dom().contains(k) <==> exists|i: int| 0 <= i < s.len() && s[i].0@ == k,
    decreases s.len(),
{
    if s.len() > 0 {
        let t = s.drop_last();
        lemma_entries_map_dom(t);
        assert forall|k: Seq<char>| #[trigger] entries_map(s).dom().contains(k) <==> exists|i: int| 0 <= i < s.len() && s[i].0@ == k by {
            if entries_map(s).dom().contains(k) {
                if k == s.last().0@ {
                    assert(s[s.len() - 1].0@ == k);
                } else {
                    assert(entries_map(t).dom().contains(k));
                    let i = choose|i: int| 0 <= i < t.len() && t[i].0@ == k;
                    assert(s[i].0@ == k);
                }
            }
            if exists|i: int| 0 <= i < s.len() && s[i].0@ == k {
                let i = choose|i: int| 0 <= i < s.len() && s[i].0@ == k;
                if i < s.len() - 1 {
                    assert(t[i].0@ == k);
                    assert(entries_map(t).dom().contains(k));
                }
            }
        }
    }
}

/// With distinct keys, the map gives each entry's sound for its key.
proof fn lemma_entries_map_at(s: Seq<(String, PlayBuf)>, i: int)
    requires
        keys_distinct(s),
        0 <= i < s.len(),
    ensures
        entries_map(s).dom().contains(s[i].0@),
        entries_map(s)[s[i].0@] == s[i].1,
    decreases s.len(),
{
    let t = s.drop_last();
    if i < s.len() - 1 {
        assert(keys_distinct(t));
        lemma_entries_map_at(t, i);
        assert(t[i] == s[i]);
        assert(s[i].0@ != s[s.len() - 1].0@);
    }
}

/// Law: a lookup gives back the sound last put under its key, and putting
/// a sound under one key changes no lookup under another.
pub proof fn law_get_after_insert(m: Map<Seq<char>, PlayBuf>, key: Seq<char>, buf: PlayBuf, other: Seq<char>)
    requires
        other != key,
    ensures
        m.insert(key, buf).dom().contains(key),
        m.insert(key, buf)[key] == buf,
        m.insert(key, buf).dom().contains(other) == m.dom().contains(other),
        m.dom().contains(other) ==> m.insert(key, buf)[other] == m[other],
{
}

/// The sounds of a soundboard, each under its key.
pub struct SoundBank {
    entries: Vec<(String, PlayBuf)>,
}

impl View for SoundBank {
    type V = Map<Seq<char>, PlayBuf>;

    closed spec fn view(&self) -> Map<Seq<char>, PlayBuf> {
        entries_map(self.entries@)
    }
}

impl SoundBank {
    /// The bank's entries hold no key twice.
    #[verifier::type_invariant]
    closed spec fn well_formed(self) -> bool {
        keys_distinct(self.entries@)
    }

    /// A bank without sounds.
    pub fn new() -> (b: Self)
        ensures
            b@ == Map::<Seq<char>, PlayBuf>::empty(),
    {
        SoundBank { entries: Vec::new() }
    }

    /// The number of sounds.
    pub fn len(&self) -> (n: usize)
        ensures
            n == self@.dom().len(),
    {
        proof {
            use_type_invariant(self);
            self.lemma_dom_len();
        }
        self.entries.len()
    }

    /// The map has one key per entry.
    proof fn lemma_dom_len(&self)
        requires
            keys_distinct(self.entries@),
        ensures
            self@.dom().finite(),
            self@.dom().len() == self.entries@.len(),
    {
        lemma_entries_len(self.entries@);
    }

    /// Finds the entry with key `key`, if there is one.
    fn find(&self, key: &str) -> (r: Option<usize>)
        ensures
            r matches Some(i) ==> i < self.entries@.len() && self.entries@[i as int].0@ == key@,
            r is None ==> forall|i: int| 0 <= i < self.entries@.len() ==> self.entries@[i].0@ != key@,
    {
        let mut i: usize = 0;
        while i < self.entries.len()
            invariant
                i <= self.entries@.len(),
                forall|j: int| 0 <= j < i ==> self.entries@[j].0@ != key@,
            decreases self.entries@.len() - i,
        {
            if str_eq(self.entries[i].0.as_str(), key) {
                return Some(i);
            }
            i = i + 1;
        }
        None
    }

    /// The sound under `key`, if there is one.
    pub fn get(&self, key: &str) -> (r: Option<&PlayBuf>)
        ensures
            r matches Some(b) ==> self@.dom().contains(key@) && *b == self@[key@],
            r is None ==> !self@.dom().contains(key@),
    {
        proof {
            use_type_invariant(self);
            lemma_entries_map_dom(self.entries@);
        }
        match self.find(key) {
            Some(i) => {
                proof {
                    lemma_entries_map_at(self.entries@, i as int);
                }
                Some(&self.entries[i].1)
            },
            None => None,
        }
    }

    /// Puts `buf` under `key`, in place of the sound that was there.
    pub fn insert(&mut self, key: String, buf: PlayBuf)
        ensures
            final(self)@ == old(self)@.insert(key@, buf),
    {
        proof {
            use_type_invariant(&*self);
            lemma_entries_map_dom(self.entries@);
        }
        match self.find(key.as_str()) {
            Some(i) => {
                let ghost before = self.entries@;
                let mut entries = Vec::new();
                std::mem::swap(&mut entries, &mut self.entries);
                entries.set(i, (key, buf));
                proof {
                    lemma_update_entry(before, i as int, entries@[i as int]);
                }
                self.entries = entries;
            },
            None => {
                let ghost before = self.entries@;
                let mut entries = Vec::new();
                std::mem::swap(&mut entries, &mut self.entries);
                entries.push((key, buf));
                proof {
                    assert(entries@.drop_last() =~= before);
                    assert forall|i: int, j: int|
                        0 <= i < entries@.len() && 0 <= j < entries@.len() && i != j
                        implies #[trigger] entries@[i].0@ != #[trigger] entries@[j].0@ by {
                        if i < before.len() && j < before.len() {
                            assert(entries@[i] == before[i] && entries@[j] == before[j]);
                        } else if i < before.len() {
                            assert(entries@[i] == before[i]);
                        } else {
                            assert(entries@[j] == before[j]);
                        }
                    }
                }
                self.entries = entries;
            },
        }
    }

    /// The keys of all sounds, each once.
    pub fn keys(&self) -> (r: Vec<String>)
        ensures
            r@.len() == self@.dom().len(),
            forall|i: int, j: int| 0 <= i < r@.len() && 0 <= j < r@.len() && i != j ==> #[trigger] r@[i]@ != #[trigger] r@[j]@,
            forall|k: Seq<char>| self@.dom().contains(k) <==> exists|i: int| 0 <= i < r@.len() && #[trigger] r@[i]@ == k,
    {
        proof {
            use_type_invariant(self);
            lemma_entries_map_dom(self.entries@);
            self.lemma_dom_len();
        }
        let mut r: Vec<String> = Vec::new();
        let mut i: usize = 0;
        while i < self.entries.len()
            invariant
                i <= self.entries@.len(),
                r@.len() == i,
                forall|j: int| 0 <= j < i ==> #[trigger] r@[j]@ == self.entries@[j].0@,
            decreases self.entries@.len() - i,
        {
            r.push(self.entries[i].0.clone());
            i = i + 1;
        }
        proof {
            assert forall|a: int, b: int| 0 <= a < r@.len() && 0 <= b < r@.len() && a != b implies #[trigger] r@[a]@ != #[trigger] r@[b]@ by {
                assert(r@[a]@ == self.entries@[a].0@);
                assert(r@[b]@ == self.entries@[b].0@);
            }
            assert forall|k: Seq<char>| self@.dom().contains(k) <==> exists|i: int| 0 <= i < r@.len() && #[trigger] r@[i]@ == k by {
                if self@.dom().contains(k) {
                    let i = choose|i: int| 0 <= i < self.entries@.len() && self.entries@[i].0@ == k;
                    assert(r@[i]@ == k);
                }
            }
        }
        r
    }
}

/// Replacing the sound of an entry, key unchanged, replaces it in the map.
proof fn lemma_update_entry(s: Seq<(String, PlayBuf)>, i: int, e: (String, PlayBuf))
    requires
        keys_distinct(s),
        0 <= i < s.len(),
        e.0@ == s[i].0@,
    ensures
        keys_distinct(s.update(i, e)),
        entries_map(s.update(i, e)) == entries_map(s).insert(e.0@, e.1),
{
    let u = s.update(i, e);
    assert forall|a: int, b: int| 0 <= a < u.len() && 0 <= b < u.len() && a != b implies #[trigger] u[a].0@ != #[trigger] u[b].0@ by {
        assert(u[a].0@ == s[a].0@);
        assert(u[b].0@ == s[b].0@);
    }
    lemma_entries_map_dom(s);
    lemma_entries_map_dom(u);
    let m = entries_map(s).insert(e.0@, e.1);
    assert forall|k: Seq<char>| entries_map(u).dom().contains(k) <==> m.dom().contains(k) by {
        if exists|j: int| 0 <= j < u.len() && u[j].0@ == k {
            let j = choose|j: int| 0 <= j < u.len() && u[j].0@ == k;
            assert(s[j].0@ == k);
        }
        if exists|j: int| 0 <= j < s.len() && s[j].0@ == k {
            let j = choose|j: int| 0 <= j < s.len() && s[j].0@ == k;
            assert(u[j].0@ == k);
        }
    }
    assert forall|k: Seq<char>| #[trigger] entries_map(u).dom().contains(k) implies entries_map(u)[k] == m[k] by {
        let j = choose|j: int| 0 <= j < u.len() && u[j].0@ == k;
        lemma_entries_map_at(u, j);
        if j != i {
            lemma_entries_map_at(s, j);
            assert(u[j] == s[j]);
        }
    }
    assert(entries_map(u) =~= m);
}

/// A list of entries with distinct keys stands for a map with as many keys.
proof fn lemma_entries_len(s: Seq<(String, PlayBuf)>)
    requires
        keys_distinct(s),
    ensures
        entries_map(s).dom().finite(),
        entries_map(s).dom().len() == s.len(),
    decreases s.len(),
{
    if s.len() > 0 {
        let t = s.drop_last();
        assert(keys_distinct(t));
        lemma_entries_len(t);
        lemma_entries_map_dom(t);
        if entries_map(t).dom().contains(s.last().0@) {
            let i = choose|i: int| 0 <= i < t.len() && t[i].0@ == s.last().0@;
            assert(s[i].0@ == s[s.len() - 1].0@);
        }
    }
}

} // verus!
