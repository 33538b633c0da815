use cosmwasm_simulate::helper::LazyMut;

fn seven() -> u64 {
    7
}

#[test]
fn unwrap_runs_a_pending_initializer() {
    let lazy: LazyMut<u64, fn() -> u64> = LazyMut::Init(seven);
    assert_eq!(lazy.unwrap(), 7);
    let ready: LazyMut<u64, fn() -> u64> = LazyMut::Value(3);
    assert_eq!(ready.unwrap(), 3);
}

#[test]
fn init_runs_once_and_sticks() {
    let mut lazy: LazyMut<u64, fn() -> u64> = LazyMut::Init(seven);
    assert!(!lazy.is_initialized());
    assert!(LazyMut::get(&lazy).is_none());
    lazy.init();
    assert!(lazy.is_initialized());
    assert_eq!(LazyMut::get(&lazy), Some(&7));
    lazy.init();
    assert_eq!(LazyMut::get(&lazy), Some(&7));
}

#[test]
fn init_once_initializes_a_pending_value() {
    let mut lazy: LazyMut<u64, fn() -> u64> = LazyMut::Init(seven);
    lazy.init_once();
    assert_eq!(LazyMut::get(&lazy), Some(&7));
}

#[test]
fn get_mut_reaches_an_initialized_value() {
    let mut lazy: LazyMut<u64, fn() -> u64> = LazyMut::Init(seven);
    assert!(LazyMut::get_mut(&mut lazy).is_none());
    lazy.init();
    if let Some(v) = LazyMut::get_mut(&mut lazy) {
        *v = 11;
    }
    assert_eq!(LazyMut::get(&lazy), Some(&11));
}
