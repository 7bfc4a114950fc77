use codegen::idmap::IdMap;
use codegen::ir::VarId;

// Capacity after a sequence of reserves is the running maximum of the
// requests, and clearing never reduces it below the last reserved value.
#[test]
fn reserve_running_max() {
    let mut m: IdMap<VarId, u32> = IdMap::new();
    assert_eq!(m.capacity(), 0);
    m.reserve(3);
    assert_eq!(m.capacity(), 3);
    m.reserve(1);
    assert_eq!(m.capacity(), 3);
    m.reserve(7);
    assert_eq!(m.capacity(), 7);
    m.reserve(7);
    assert_eq!(m.capacity(), 7);
    m.clear();
    assert_eq!(m.capacity(), 7);
    m.reserve(2);
    assert_eq!(m.capacity(), 7);
}

#[test]
fn set_then_get() {
    let mut m: IdMap<VarId, u32> = IdMap::new();
    m.reserve(4);
    m.set(VarId(0), 10);
    m.set(VarId(3), 13);
    assert_eq!(*m.get(VarId(0)), 10);
    assert_eq!(*m.get(VarId(3)), 13);
    m.set(VarId(0), 99);
    assert_eq!(*m.get(VarId(0)), 99);
    assert_eq!(*m.get(VarId(3)), 13);
}

#[test]
fn clear_discards_values() {
    let mut m: IdMap<VarId, u32> = IdMap::new();
    m.reserve(2);
    m.set(VarId(1), 5);
    m.clear();
    // the capacity survives, so the slot can be set again at once
    assert_eq!(m.capacity(), 2);
    m.set(VarId(1), 6);
    assert_eq!(*m.get(VarId(1)), 6);
}

#[test]
fn default_is_empty() {
    let m: IdMap<VarId, u32> = Default::default();
    assert_eq!(m.capacity(), 0);
}
