//! File identity: one fixed-width integer that says whether a span of text
//! belongs to a real file on disk or to the virtual file produced by
//! expanding one specific macro invocation.
//!
//! The two cases share a single `u32`. The most significant bit is the
//! discriminant: clear means the remaining bits are a real-file handle, set
//! means they are the interned key of a macro-call descriptor. Both handle
//! spaces are therefore bounded by the same maximum, so one space cannot
//! overflow without the other's bound catching it too.

use vstd::prelude::*;

verus! {

/// Largest raw value a real-file handle or an interned macro-call key may
/// take: the most significant bit of the packed representation is reserved
/// for the discriminant.
pub const MAX_HIR_FILE_ID: u32 = 0x7fff_ffff;

/// The discriminant bit: set exactly on identities of macro-produced files.
pub const MACRO_FILE_TAG_MASK: u32 = 0x8000_0000;

/// Raw value of the placeholder file handle used by the sentinel span.
pub const BOGUS_FILE_ID: u32 = 0x000e_4e4e;

/// Handle of a real file on disk, assigned by the file-set collaborator.
#[derive(Clone, Copy, PartialEq, Eq, Structural, Debug, Hash)]
pub struct FileId {
    pub raw: u32,
}

impl FileId {
    /// A handle is valid when it fits beside the discriminant bit.
    pub open spec fn wf(self) -> bool {
        self.raw <= MAX_HIR_FILE_ID
    }

    pub open spec fn index_spec(self) -> u32 {
        self.raw
    }

    pub fn from_raw(raw: u32) -> (r: FileId)
        requires
            raw <= MAX_HIR_FILE_ID,
        ensures
            r.wf(),
            r.index_spec() == raw,
    {
        FileId { raw }
    }

    pub fn index(self) -> (r: u32)
        ensures
            r == self.index_spec(),
    {
        self.raw
    }

    /// Placeholder handle carried by the sentinel span; surfacing it in real
    /// output is a defect of the consumer, not a valid state.
    pub fn bogus() -> (r: FileId)
        ensures
            r.wf(),
            r.index_spec() == BOGUS_FILE_ID,
    {
        FileId { raw: BOGUS_FILE_ID }
    }
}

/// Interned key identifying one macro invocation, handed out by the
/// descriptor interner. Bounded so it fits beside the discriminant bit.
#[derive(Clone, Copy, PartialEq, Eq, Structural, PartialOrd, Ord, Debug, Hash)]
pub struct MacroCallId {
    pub raw: u32,
}

impl MacroCallId {
    pub open spec fn wf(self) -> bool {
        self.raw <= MAX_HIR_FILE_ID
    }

    pub open spec fn raw_spec(self) -> u32 {
        self.raw
    }

    pub fn from_raw(raw: u32) -> (r: MacroCallId)
        requires
            raw <= MAX_HIR_FILE_ID,
        ensures
            r.wf(),
            r.raw_spec() == raw,
    {
        MacroCallId { raw }
    }

    pub fn raw(self) -> (r: u32)
        ensures
            r == self.raw_spec(),
    {
        self.raw
    }

    /// The identity of the virtual file produced by expanding this call.
    pub fn as_file(self) -> (r: HirFileId)
        requires
            self.wf(),
        ensures
            r == HirFileId::from_macro_file_spec(MacroFileId { macro_call_id: self }),
    {
        HirFileId::from_macro_file(MacroFileId { macro_call_id: self })
    }

    pub fn as_macro_file(self) -> (r: MacroFileId)
        ensures
            r.macro_call_id == self,
    {
        MacroFileId { macro_call_id: self }
    }
}

/// Identity of one macro-produced virtual file.
#[derive(Clone, Copy, PartialEq, Eq, Structural, Debug, Hash)]
pub struct MacroFileId {
    pub macro_call_id: MacroCallId,
}

impl MacroFileId {
    pub open spec fn wf(self) -> bool {
        self.macro_call_id.wf()
    }
}

/// The decoded form of a packed file identity.
#[derive(Clone, Copy, PartialEq, Eq, Structural, Debug, Hash)]
pub enum HirFileIdRepr {
    FileId(FileId),
    MacroFile(MacroFileId),
}

/// Packed file identity: either a real file (discriminant bit clear, the
/// remaining bits a file handle) or a macro-produced virtual file
/// (discriminant bit set, the remaining bits an interned macro-call key).
#[derive(Clone, Copy, PartialEq, Eq, Structural, PartialOrd, Ord, Debug, Hash)]
pub struct HirFileId {
    pub raw: u32,
}

impl HirFileId {
    pub open spec fn raw_spec(self) -> u32 {
        self.raw
    }

    pub open spec fn is_macro_spec(self) -> bool {
        self.raw & MACRO_FILE_TAG_MASK != 0
    }

    /// The decoded value: which case the discriminant selects, and the
    /// handle the remaining bits hold.
    pub open spec fn repr_spec(self) -> HirFileIdRepr {
        if self.raw & MACRO_FILE_TAG_MASK == 0 {
            HirFileIdRepr::FileId(FileId { raw: self.raw })
        } else {
            HirFileIdRepr::MacroFile(MacroFileId {
                macro_call_id: MacroCallId { raw: self.raw ^ MACRO_FILE_TAG_MASK },
            })
        }
    }

    pub open spec fn from_file_id_spec(file: FileId) -> HirFileId {
        HirFileId { raw: file.raw }
    }

    pub open spec fn from_macro_file_spec(mac: MacroFileId) -> HirFileId {
        HirFileId { raw: mac.macro_call_id.raw | MACRO_FILE_TAG_MASK }
    }

    /// Pack a real-file handle. The handle's bound keeps the discriminant
    /// bit clear, so the two cases can never alias.
    pub fn from_file_id(file: FileId) -> (r: HirFileId)
        requires
            file.wf(),
        ensures
            r == Self::from_file_id_spec(file),
            r.repr_spec() == HirFileIdRepr::FileId(file),
            !r.is_macro_spec(),
    {
        proof {
            let raw = file.raw;
            assert(raw & MACRO_FILE_TAG_MASK == 0) by (bit_vector)
                requires
                    raw <= MAX_HIR_FILE_ID,
            ;
        }
        HirFileId { raw: file.index() }
    }

    /// Pack a macro-call key. The key's bound keeps it recoverable after the
    /// discriminant bit is masked back out.
    pub fn from_macro_file(mac: MacroFileId) -> (r: HirFileId)
        requires
            mac.wf(),
        ensures
            r == Self::from_macro_file_spec(mac),
            r.repr_spec() == HirFileIdRepr::MacroFile(mac),
            r.is_macro_spec(),
    {
        proof {
            let raw = mac.macro_call_id.raw;
            assert((raw | MACRO_FILE_TAG_MASK) & MACRO_FILE_TAG_MASK != 0 && (raw
                | MACRO_FILE_TAG_MASK) ^ MACRO_FILE_TAG_MASK == raw) by (bit_vector)
                requires
                    raw <= MAX_HIR_FILE_ID,
            ;
        }
        HirFileId { raw: mac.macro_call_id.raw() | MACRO_FILE_TAG_MASK }
    }

    pub fn as_u32(self) -> (r: u32)
        ensures
            r == self.raw_spec(),
    {
        self.raw
    }

    /// True exactly when this identity names a macro-produced virtual file.
    pub fn is_macro(self) -> (r: bool)
        ensures
            r == self.is_macro_spec(),
    {
        self.raw & MACRO_FILE_TAG_MASK != 0
    }

    /// The macro-call descriptor key, when this identity is macro-produced.
    pub fn macro_file(self) -> (r: Option<MacroFileId>)
        ensures
            match r {
                Some(mac) => self.repr_spec() == HirFileIdRepr::MacroFile(mac) && mac.wf(),
                None => self.repr_spec() matches HirFileIdRepr::FileId(_),
            },
    {
        if self.raw & MACRO_FILE_TAG_MASK == 0 {
            None
        } else {
            proof {
                let raw = self.raw;
                assert(raw ^ MACRO_FILE_TAG_MASK <= MAX_HIR_FILE_ID) by (bit_vector)
                    requires
                        raw & MACRO_FILE_TAG_MASK != 0,
                ;
            }
            Some(MacroFileId { macro_call_id: MacroCallId { raw: self.raw ^ MACRO_FILE_TAG_MASK } })
        }
    }

    /// The real-file handle, when this identity is a real file.
    pub fn file_id(self) -> (r: Option<FileId>)
        ensures
            match r {
                Some(file) => self.repr_spec() == HirFileIdRepr::FileId(file) && file.wf(),
                None => self.repr_spec() matches HirFileIdRepr::MacroFile(_),
            },
    {
        if self.raw & MACRO_FILE_TAG_MASK == 0 {
            proof {
                let raw = self.raw;
                assert(raw & MACRO_FILE_TAG_MASK == 0 ==> raw <= MAX_HIR_FILE_ID) by (bit_vector);
            }
            Some(FileId { raw: self.raw })
        } else {
            None
        }
    }

    /// Decode the packed value into its two-variant form.
    pub fn repr(self) -> (r: HirFileIdRepr)
        ensures
            r == self.repr_spec(),
    {
        if self.raw & MACRO_FILE_TAG_MASK == 0 {
            HirFileIdRepr::FileId(FileId { raw: self.raw })
        } else {
            HirFileIdRepr::MacroFile(MacroFileId {
                macro_call_id: MacroCallId { raw: self.raw ^ MACRO_FILE_TAG_MASK },
            })
        }
    }
}

/// Constructing a real-file identity and decomposing it returns the original
/// handle; constructing a virtual-file identity from a descriptor key and
/// decomposing it returns an equal key; and the two kinds are always
/// distinguishable by classification.
pub proof fn lemma_file_identity_round_trip(file: FileId, mac: MacroFileId)
    requires
        file.wf(),
        mac.wf(),
    ensures
        HirFileId::from_file_id_spec(file).repr_spec() == HirFileIdRepr::FileId(file),
        HirFileId::from_macro_file_spec(mac).repr_spec() == HirFileIdRepr::MacroFile(mac),
        !HirFileId::from_file_id_spec(file).is_macro_spec(),
        HirFileId::from_macro_file_spec(mac).is_macro_spec(),
{
    let fraw = file.raw;
    assert(fraw & MACRO_FILE_TAG_MASK == 0) by (bit_vector)
        requires
            fraw <= MAX_HIR_FILE_ID,
    ;
    let mraw = mac.macro_call_id.raw;
    assert((mraw | MACRO_FILE_TAG_MASK) & MACRO_FILE_TAG_MASK != 0 && (mraw | MACRO_FILE_TAG_MASK)
        ^ MACRO_FILE_TAG_MASK == mraw) by (bit_vector)
        requires
            mraw <= MAX_HIR_FILE_ID,
    ;
}

} // verus!
