//! Interned identities for macro expansion: hygiene-context chains and
//! macro-call descriptors.
//!
//! The interner collaborator is modelled as an explicit append-only store
//! handed around as a value, so every test can use an isolated instance.
//! Interning is "insert or return existing": two keys intern to the same id
//! exactly when they are equal, and an id, once handed out, never moves.
//!
//! A hygiene context either is the root (no rewriting: identifiers mean
//! exactly what they say) or refers to a parent context plus the
//! transformation applied at one expansion step. Two reserved values exist:
//! the root context, and a self-referential placeholder that an expansion
//! step may use to refer to the context currently being constructed;
//! observing the placeholder outside that construction window is a defect
//! of the consumer.

use vstd::prelude::*;
use crate::ast_id_map::ErasedFileAstId;
use crate::file_id::{HirFileId, MacroCallId, MAX_HIR_FILE_ID};

verus! {

/// Raw value of the root hygiene context.
pub const ROOT_CONTEXT: u32 = 0;

/// Raw value of the self-referential placeholder context. No real context
/// ever receives this id: the interners below stay strictly smaller.
pub const SELF_REF_CONTEXT: u32 = 0xffff_feff;

/// An interned hygiene context.
#[derive(Clone, Copy, PartialEq, Eq, Structural, PartialOrd, Ord, Debug, Hash)]
pub struct SyntaxContextId {
    pub raw: u32,
}

impl SyntaxContextId {
    /// The root context: no hygiene rewriting at all.
    pub fn root() -> (r: SyntaxContextId)
        ensures
            r.raw == ROOT_CONTEXT,
    {
        SyntaxContextId { raw: ROOT_CONTEXT }
    }

    /// The placeholder that stands for the context currently being interned.
    pub fn self_ref() -> (r: SyntaxContextId)
        ensures
            r.raw == SELF_REF_CONTEXT,
    {
        SyntaxContextId { raw: SELF_REF_CONTEXT }
    }

    pub fn is_root(self) -> (r: bool)
        ensures
            r == (self.raw == ROOT_CONTEXT),
    {
        self.raw == ROOT_CONTEXT
    }

    pub fn is_self_ref(self) -> (r: bool)
        ensures
            r == (self.raw == SELF_REF_CONTEXT),
    {
        self.raw == SELF_REF_CONTEXT
    }
}

/// One step of a hygiene chain: the parent context and the transformation
/// applied at this expansion step, abstracted as an opaque token.
#[derive(Clone, Copy, PartialEq, Eq, Structural, Debug, Hash)]
pub struct SyntaxContextData {
    pub parent: SyntaxContextId,
    pub transform: u64,
}

/// One macro invocation's identifying record: the identity of the file
/// holding the call, and the call node's stable id within that file. Two
/// invocations are the same descriptor exactly when these match.
#[derive(Clone, Copy, PartialEq, Eq, Structural, Debug, Hash)]
pub struct MacroCallLoc {
    pub file_id: HirFileId,
    pub ast_id: ErasedFileAstId,
}

/// No key is stored twice.
pub open spec fn unique_entries<T>(s: Seq<T>) -> bool {
    forall|i: int, j: int| 0 <= i < j < s.len() ==> s[i] != s[j]
}

/// The store after interning `key`: unchanged when the key is already
/// present, extended by one entry otherwise.
pub open spec fn spec_intern<T>(s: Seq<T>, key: T) -> Seq<T> {
    if s.contains(key) {
        s
    } else {
        s.push(key)
    }
}

/// The id interning `key` hands out: the key's position in the store.
pub open spec fn spec_intern_id<T>(s: Seq<T>, key: T) -> int {
    if s.contains(key) {
        choose|i: int| 0 <= i < s.len() && s[i] == key
    } else {
        s.len() as int
    }
}

/// Interning preserves uniqueness, only ever appends, and leaves every
/// already-interned key at its position.
pub proof fn lemma_intern_well_formed<T>(s: Seq<T>, key: T)
    requires
        unique_entries(s),
    ensures
        unique_entries(spec_intern(s, key)),
        0 <= spec_intern_id(s, key) < spec_intern(s, key).len(),
        spec_intern(s, key)[spec_intern_id(s, key)] == key,
        s.len() <= spec_intern(s, key).len() <= s.len() + 1,
        forall|i: int| 0 <= i < s.len() ==> #[trigger] spec_intern(s, key)[i] == s[i],
{
    if s.contains(key) {
        let i = choose|i: int| 0 <= i < s.len() && s[i] == key;
        assert(spec_intern(s, key)[i] == key);
    }
}

/// Interning the same key twice yields the same id both times, and the
/// second interning does not grow the store.
pub proof fn lemma_intern_same_key<T>(s: Seq<T>, key: T)
    requires
        unique_entries(s),
    ensures
        spec_intern(spec_intern(s, key), key) == spec_intern(s, key),
        spec_intern_id(spec_intern(s, key), key) == spec_intern_id(s, key),
{
    lemma_intern_well_formed(s, key);
    let s1 = spec_intern(s, key);
    let id = spec_intern_id(s, key);
    assert(s1[id] == key);
    assert(s1.contains(key));
    let id2 = spec_intern_id(s1, key);
    assert(s1[id2] == key);
    assert(unique_entries(s1));
    if id != id2 {
        if id < id2 {
            assert(s1[id] != s1[id2]);
        } else {
            assert(s1[id2] != s1[id]);
        }
    }
}

/// Two distinct keys intern to distinct ids, in whichever order the two
/// interning calls happen.
pub proof fn lemma_intern_distinct_keys<T>(s: Seq<T>, a: T, b: T)
    requires
        unique_entries(s),
        a != b,
    ensures
        spec_intern_id(spec_intern(s, a), b) != spec_intern_id(s, a),
{
    lemma_intern_well_formed(s, a);
    let s1 = spec_intern(s, a);
    let ida = spec_intern_id(s, a);
    assert(s1[ida] == a);
    let idb = spec_intern_id(s1, b);
    if s1.contains(b) {
        assert(s1[idb] == b);
    } else {
        assert(idb == s1.len());
    }
}

/// The hygiene-context interner: an append-only store of (parent,
/// transformation) pairs. Ids stay strictly below the self-referential
/// placeholder, so the placeholder never aliases a real context.
pub struct SyntaxContextInterner {
    pub entries: Vec<SyntaxContextData>,
}

impl SyntaxContextInterner {
    pub open spec fn view(self) -> Seq<SyntaxContextData> {
        self.entries@
    }

    pub open spec fn inv(self) -> bool {
        &&& unique_entries(self.entries@)
        &&& self.entries@.len() <= SELF_REF_CONTEXT
    }

    pub fn new() -> (r: SyntaxContextInterner)
        ensures
            r.inv(),
            r.view().len() == 0,
    {
        SyntaxContextInterner { entries: Vec::new() }
    }

    /// A fresh interner with the root context pre-interned, so that the
    /// root's data sits exactly at the reserved root id.
    pub fn with_root() -> (r: SyntaxContextInterner)
        ensures
            r.inv(),
            r.view().len() == 1,
            r.view()[0] == (SyntaxContextData {
                parent: SyntaxContextId { raw: ROOT_CONTEXT },
                transform: 0,
            }),
    {
        let mut entries: Vec<SyntaxContextData> = Vec::new();
        entries.push(SyntaxContextData { parent: SyntaxContextId { raw: ROOT_CONTEXT }, transform: 0 });
        SyntaxContextInterner { entries }
    }

    /// Build the context combining `parent` with one expansion step's
    /// transformation: return the existing id when the same pair was
    /// interned before, a fresh id otherwise.
    pub fn intern(&mut self, parent: SyntaxContextId, transform: u64) -> (r: SyntaxContextId)
        requires
            old(self).inv(),
            old(self).view().len() < SELF_REF_CONTEXT,
        ensures
            final(self).inv(),
            final(self).view() == spec_intern(
                old(self).view(),
                SyntaxContextData { parent, transform },
            ),
            r.raw as int == spec_intern_id(
                old(self).view(),
                SyntaxContextData { parent, transform },
            ),
            r.raw < final(self).view().len(),
            final(self).view()[r.raw as int] == (SyntaxContextData { parent, transform }),
            r.raw < SELF_REF_CONTEXT,
    {
        let key = SyntaxContextData { parent, transform };
        proof {
            lemma_intern_well_formed(old(self).view(), key);
        }
        let nlen = self.entries.len();
        let mut i: usize = 0;
        while i < nlen
            invariant
                self == old(self),
                old(self).inv(),
                old(self).view().len() < SELF_REF_CONTEXT,
                nlen == self.entries@.len(),
                i <= nlen,
                key == (SyntaxContextData { parent, transform }),
                forall|j: int| 0 <= j < i ==> self.entries@[j] != key,
            decreases nlen - i,
        {
            if self.entries[i] == key {
                proof {
                    assert(self.entries@.contains(key));
                    let c = spec_intern_id(self.entries@, key);
                    assert(self.entries@[c] == key);
                    if c != i {
                        if c < i {
                            assert(self.entries@[c] != self.entries@[i as int]);
                        } else {
                            assert(self.entries@[i as int] != self.entries@[c]);
                        }
                    }
                }
                return SyntaxContextId { raw: i as u32 };
            }
            i += 1;
        }
        proof {
            if self.entries@.contains(key) {
                let c = choose|c: int| 0 <= c < self.entries@.len() && self.entries@[c] == key;
                assert(self.entries@[c] != key);
            }
        }
        self.entries.push(key);
        SyntaxContextId { raw: nlen as u32 }
    }

    /// The (parent, transformation) pair a context id was built from.
    pub fn resolve(&self, id: SyntaxContextId) -> (r: SyntaxContextData)
        requires
            self.inv(),
            id.raw < self.view().len(),
        ensures
            r == self.view()[id.raw as int],
    {
        self.entries[id.raw as usize]
    }
}

/// The macro-call descriptor interner: an append-only store of call-site
/// records. Ids stay within the packed file-identity bound, so every
/// descriptor key fits beside the discriminant bit.
pub struct MacroCallInterner {
    pub entries: Vec<MacroCallLoc>,
}

impl MacroCallInterner {
    pub open spec fn view(self) -> Seq<MacroCallLoc> {
        self.entries@
    }

    pub open spec fn inv(self) -> bool {
        &&& unique_entries(self.entries@)
        &&& self.entries@.len() <= MAX_HIR_FILE_ID
    }

    pub fn new() -> (r: MacroCallInterner)
        ensures
            r.inv(),
            r.view().len() == 0,
    {
        MacroCallInterner { entries: Vec::new() }
    }

    /// Intern one invocation's record. Exhausting the id space would make
    /// the packed file identity ambiguous, so it is excluded up front: it
    /// is a scale limit, not a recoverable condition.
    pub fn intern(&mut self, loc: MacroCallLoc) -> (r: MacroCallId)
        requires
            old(self).inv(),
            old(self).view().len() < MAX_HIR_FILE_ID,
        ensures
            final(self).inv(),
            final(self).view() == spec_intern(old(self).view(), loc),
            r.raw_spec() as int == spec_intern_id(old(self).view(), loc),
            r.wf(),
            r.raw_spec() < final(self).view().len(),
            final(self).view()[r.raw_spec() as int] == loc,
    {
        proof {
            lemma_intern_well_formed(old(self).view(), loc);
        }
        let nlen = self.entries.len();
        let mut i: usize = 0;
        while i < nlen
            invariant
                self == old(self),
                old(self).inv(),
                old(self).view().len() < MAX_HIR_FILE_ID,
                nlen == self.entries@.len(),
                i <= nlen,
                forall|j: int| 0 <= j < i ==> self.entries@[j] != loc,
            decreases nlen - i,
        {
            if self.entries[i] == loc {
                proof {
                    assert(self.entries@.contains(loc));
                    let c = spec_intern_id(self.entries@, loc);
                    assert(self.entries@[c] == loc);
                    if c != i {
                        if c < i {
                            assert(self.entries@[c] != self.entries@[i as int]);
                        } else {
                            assert(self.entries@[i as int] != self.entries@[c]);
                        }
                    }
                }
                return MacroCallId::from_raw(i as u32);
            }
            i += 1;
        }
        proof {
            if self.entries@.contains(loc) {
                let c = choose|c: int| 0 <= c < self.entries@.len() && self.entries@[c] == loc;
                assert(self.entries@[c] != loc);
            }
        }
        self.entries.push(loc);
        MacroCallId::from_raw(nlen as u32)
    }

    /// The invocation record a descriptor key was interned from.
    pub fn resolve(&self, id: MacroCallId) -> (r: MacroCallLoc)
        requires
            self.inv(),
            id.raw_spec() < self.view().len(),
        ensures
            r == self.view()[id.raw_spec() as int],
    {
        self.entries[id.raw() as usize]
    }
}

} // verus!
