use span_core::file_id::{
    FileId, HirFileId, HirFileIdRepr, MacroCallId, BOGUS_FILE_ID, MAX_HIR_FILE_ID,
};

/// A real-file identity decomposes back to the original handle, a
/// virtual-file identity back to an equal descriptor key, and the two kinds
/// never classify alike.
#[test]
fn file_identity_round_trip() {
    let file = FileId::from_raw(5);
    let real = HirFileId::from_file_id(file);
    assert!(!real.is_macro());
    assert_eq!(real.file_id(), Some(file));
    assert_eq!(real.macro_file(), None);
    assert_eq!(real.repr(), HirFileIdRepr::FileId(file));

    let call = MacroCallId::from_raw(7);
    let virt = call.as_file();
    assert!(virt.is_macro());
    assert_eq!(virt.file_id(), None);
    let mac = virt.macro_file().unwrap();
    assert_eq!(mac.macro_call_id, call);
    assert_eq!(virt.repr(), HirFileIdRepr::MacroFile(call.as_macro_file()));
}

/// The discriminant is the most significant bit of the packed value.
#[test]
fn packed_representation() {
    let real = HirFileId::from_file_id(FileId::from_raw(5));
    assert_eq!(real.as_u32(), 5);
    let virt = MacroCallId::from_raw(7).as_file();
    assert_eq!(virt.as_u32(), 0x8000_0007);
}

/// Both handle spaces reach the shared bound and stay distinguishable
/// there.
#[test]
fn identity_at_the_bound() {
    let file = FileId::from_raw(MAX_HIR_FILE_ID);
    let real = HirFileId::from_file_id(file);
    assert!(!real.is_macro());
    assert_eq!(real.file_id(), Some(file));

    let call = MacroCallId::from_raw(MAX_HIR_FILE_ID);
    let virt = call.as_file();
    assert!(virt.is_macro());
    assert_eq!(virt.macro_file().unwrap().macro_call_id, call);
}

/// The placeholder file handle is an ordinary real-file handle by
/// classification.
#[test]
fn bogus_handle() {
    let bogus = FileId::bogus();
    assert_eq!(bogus.index(), BOGUS_FILE_ID);
    let id = HirFileId::from_file_id(bogus);
    assert!(!id.is_macro());
}

/// A macro-call key converts to its virtual-file forms consistently.
#[test]
fn macro_call_conversions() {
    let call = MacroCallId::from_raw(42);
    assert_eq!(call.raw(), 42);
    let mac = call.as_macro_file();
    assert_eq!(mac.macro_call_id, call);
    assert_eq!(call.as_file(), HirFileId::from_macro_file(mac));
}
