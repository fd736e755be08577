use poggers::protections::Protections;

fn all_states() -> Vec<Protections> {
    vec![
        Protections::Execute,
        Protections::ExecuteRead,
        Protections::ExecuteReadWrite,
        Protections::ExecuteWriteCopy,
        Protections::NoAccess,
        Protections::ReadOnly,
        Protections::ReadWrite,
        Protections::WriteCopy,
        Protections::TargetInvalid,
        Protections::TargetNoUpdate,
        Protections::Invalid,
    ]
}

#[test]
fn native_values_are_fixed() {
    assert_eq!(Protections::Execute.u32(), 0x10);
    assert_eq!(Protections::ExecuteRead.u32(), 0x20);
    assert_eq!(Protections::ExecuteReadWrite.u32(), 0x40);
    assert_eq!(Protections::ExecuteWriteCopy.u32(), 0x80);
    assert_eq!(Protections::NoAccess.u32(), 0x01);
    assert_eq!(Protections::ReadOnly.u32(), 0x02);
    assert_eq!(Protections::ReadWrite.u32(), 0x04);
    assert_eq!(Protections::WriteCopy.u32(), 0x08);
    assert_eq!(Protections::TargetInvalid.u32(), 0x40000000);
    assert_eq!(Protections::TargetNoUpdate.u32(), 0x80000000);
    assert_eq!(Protections::Invalid.u32(), 0x0);
    assert_eq!(Protections::ReadWrite.native(), 0x04);
}

#[test]
fn native_mapping_closure() {
    for s in all_states() {
        if s != Protections::Invalid {
            assert_eq!(Protections::from_native(s.u32()), s);
        }
    }
}

#[test]
fn unknown_native_values_decode_to_invalid() {
    assert_eq!(Protections::from_native(0x0), Protections::Invalid);
    assert_eq!(Protections::from_native(0x3), Protections::Invalid);
    assert_eq!(Protections::from_native(0xDEAD), Protections::Invalid);
    assert_eq!(Protections::from_native(u32::MAX), Protections::Invalid);
}

#[test]
fn native_encoding_is_injective() {
    let states = all_states();
    for a in &states {
        for b in &states {
            if a != b {
                assert_ne!(a.u32(), b.u32(), "{:?} and {:?} share a native value", a, b);
            }
        }
    }
}

#[test]
fn describe_names_each_state() {
    assert_eq!(Protections::Execute.describe(), "Execute");
    assert_eq!(Protections::TargetNoUpdate.describe(), "TargetNoUpdate");
    assert_eq!(Protections::Invalid.describe(), "Invalid");
}
