use cap_registry::declare::Declared;
use cap_registry::erased::ErasedExt;
use cap_registry::extensions::{Error, Extension, ExtensionStore, Extensions};

type DummyExt = Declared<1, u32>;
type DummyExt2 = Declared<2, u32>;

#[test]
fn register_and_retrieve_extension() {
    let mut exts = Extensions::new();
    exts.register(DummyExt::new(1));
    exts.register(DummyExt2::new(2));

    let ext = exts.get_mut(DummyExt::key()).expect("Extension is registered");
    let ext_ty = ext.downcast_mut::<DummyExt>().expect("Downcasting works");

    assert_eq!(ext_ty.value, 1);
}

#[test]
fn register_box_extension() {
    let mut exts = Extensions::new();
    let box1 = ErasedExt::new(DummyExt::new(1));
    let box2 = ErasedExt::new(DummyExt2::new(2));
    exts.register_erased(DummyExt::key(), box1);
    exts.register_erased(DummyExt2::key(), box2);

    {
        let ext = exts.get_mut(DummyExt::key()).expect("Extension 1 is registered");
        let ext_ty = ext.downcast_mut::<DummyExt>().expect("Downcasting works for Extension 1");
        assert_eq!(ext_ty.value, 1);
    }
    {
        let ext2 = exts.get_mut(DummyExt2::key()).expect("Extension 2 is registered");
        let ext_ty2 = ext2
            .downcast_mut::<DummyExt2>()
            .expect("Downcasting works for Extension 2");
        assert_eq!(ext_ty2.value, 2);
    }
}

#[test]
fn default_registry_is_empty() {
    let mut exts = Extensions::default();
    assert_eq!(exts.len(), 0);
    assert!(exts.get_mut(DummyExt::key()).is_none());
}

#[test]
fn declared_wrapper_converts_from_inner() {
    let ext: DummyExt = 12u32.into();
    assert_eq!(ext.value, 12);
    assert_eq!(ext.type_key(), DummyExt::key());
}

#[test]
fn lookup_of_other_type_finds_nothing() {
    let mut exts = Extensions::new();
    exts.register(DummyExt::new(7));
    assert!(exts.extension_mut::<DummyExt2>().is_none());
    assert!(exts.get_mut(DummyExt2::key()).is_none());
}

#[test]
fn typed_round_trip() {
    let mut exts = Extensions::new();
    exts.register(DummyExt::new(41));
    let found = exts
        .extension_mut::<DummyExt>()
        .expect("the registered type is found");
    assert_eq!(found.value, 41);
}

#[test]
fn typed_access_mutates_in_place() {
    let mut exts = Extensions::new();
    exts.register(DummyExt::new(1));
    exts.extension_mut::<DummyExt>().unwrap().value = 99;
    assert_eq!(exts.extension_mut::<DummyExt>().unwrap().value, 99);
}

#[test]
fn insert_only_registration_rejects_duplicates() {
    let mut exts = Extensions::new();
    let first = ErasedExt::new(DummyExt::new(10));
    let second = ErasedExt::new(DummyExt::new(20));
    assert_eq!(exts.register_with_type_id(DummyExt::key(), first), Ok(()));
    assert_eq!(
        exts.register_with_type_id(DummyExt::key(), second),
        Err(Error::ExtensionAlreadyRegistered)
    );
    let kept = exts.extension_mut::<DummyExt>().expect("first stays");
    assert_eq!(kept.value, 10);
}

#[test]
fn permissive_registration_overwrites() {
    let mut exts = Extensions::new();
    exts.register(DummyExt::new(10));
    exts.register(DummyExt::new(20));
    assert_eq!(exts.len(), 1);
    assert_eq!(exts.extension_mut::<DummyExt>().unwrap().value, 20);
}

#[test]
fn deregister_present_then_absent() {
    let mut exts = Extensions::new();
    exts.register(DummyExt::new(5));
    assert!(exts.deregister(DummyExt::key()));
    assert!(exts.extension_mut::<DummyExt>().is_none());
    assert!(!exts.deregister(DummyExt::key()));
    assert_eq!(exts.len(), 0);
}

#[test]
fn strict_deregistration_reports_absence() {
    let mut exts = Extensions::new();
    assert_eq!(
        exts.deregister_extension_by_type_id(DummyExt::key()),
        Err(Error::ExtensionIsNotRegistered)
    );
    exts.register(DummyExt::new(3));
    assert_eq!(exts.deregister_extension_by_type_id(DummyExt::key()), Ok(()));
    assert!(exts.get_mut(DummyExt::key()).is_none());
}

#[test]
fn store_trait_mirrors_inherent_operations() {
    let mut exts = Extensions::new();
    let erased = ErasedExt::new(DummyExt::new(8));
    assert_eq!(
        exts.register_extension_with_type_id(DummyExt::key(), erased),
        Ok(())
    );
    let found = exts
        .extension_by_type_id(DummyExt::key())
        .expect("registered through the trait");
    assert_eq!(found.downcast_mut::<DummyExt>().unwrap().value, 8);
    assert!(exts.extension_by_type_id(DummyExt2::key()).is_none());
}

#[test]
fn downcast_fails_closed_on_key_collision() {
    // Two distinct types sharing one key break the declarer's injectivity
    // duty; lookup must then fail closed rather than misread the value.
    type Honest = Declared<9, u32>;
    type Impostor = Declared<9, String>;
    let mut exts = Extensions::new();
    exts.register(Honest::new(3));
    assert!(exts.extension_mut::<Impostor>().is_none());
    assert_eq!(exts.extension_mut::<Honest>().unwrap().value, 3);
}
