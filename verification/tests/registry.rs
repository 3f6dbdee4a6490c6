use async_basics::js::Js;
use async_basics::registry::Registry;

#[test]
fn registry_issues_ids_from_one_upwards() {
    let mut r: Registry<&'static str> = Registry::new();
    assert_eq!(r.issued(), 0);
    assert_eq!(r.len(), 0);
    assert_eq!(r.register("a"), 1);
    assert_eq!(r.register("b"), 2);
    assert_eq!(r.register("c"), 3);
    assert_eq!(r.issued(), 3);
    assert_eq!(r.len(), 3);
    assert!(r.contains(1) && r.contains(2) && r.contains(3));
    assert!(!r.contains(0) && !r.contains(4));
}

#[test]
fn registry_never_reuses_an_id() {
    let mut r: Registry<u8> = Registry::new();
    let a = r.register(1);
    assert_eq!(r.fire(a), Some(1));
    let b = r.register(2);
    assert!(b > a);
    assert_eq!(r.fire(b), Some(2));
    let c = r.register(3);
    assert!(c > b);
    assert_eq!(r.issued(), 3);
    assert_eq!(r.len(), 1);
}

#[test]
fn fire_hands_a_callback_out_once() {
    let mut r: Registry<String> = Registry::new();
    let id = r.register("cb".to_string());
    let other = r.register("other".to_string());
    assert_eq!(r.fire(id), Some("cb".to_string()));
    assert_eq!(r.fire(id), None);
    assert!(!r.contains(id));
    assert!(r.contains(other));
    assert_eq!(r.fire(77), None);
    assert_eq!(r.len(), 1);
}

#[test]
fn drain_ready_empties_the_list() {
    let mut r: Registry<u8> = Registry::new();
    r.mark_ready(4, Js::Int(1));
    r.mark_ready(2, Js::Undefined);
    assert_eq!(r.ready_len(), 2);
    assert_eq!(r.drain_ready(), vec![(4, Js::Int(1)), (2, Js::Undefined)]);
    assert_eq!(r.ready_len(), 0);
    assert_eq!(r.drain_ready(), Vec::<(usize, Js)>::new());
}

#[test]
fn run_ready_callbacks_pairs_callbacks_with_results_in_order() {
    let mut r: Registry<&'static str> = Registry::new();
    let a = r.register("a");
    let b = r.register("b");
    let c = r.register("c");
    r.mark_ready(c, Js::Int(3));
    r.mark_ready(a, Js::String("one".to_string()));
    let batch = r.run_ready_callbacks();
    assert_eq!(batch, vec![("c", Js::Int(3)), ("a", Js::String("one".to_string()))]);
    assert_eq!(r.ready_len(), 0);
    assert!(r.contains(b));
    assert!(!r.contains(a) && !r.contains(c));
    assert_eq!(r.run_ready_callbacks(), Vec::<(&'static str, Js)>::new());
}

#[test]
fn run_ready_callbacks_passes_over_what_is_not_registered() {
    let mut r: Registry<&'static str> = Registry::new();
    let a = r.register("a");
    r.mark_ready(9, Js::Undefined);
    r.mark_ready(a, Js::Int(1));
    r.mark_ready(a, Js::Int(2));
    let batch = r.run_ready_callbacks();
    assert_eq!(batch, vec![("a", Js::Int(1))]);
    assert_eq!(r.len(), 0);
}

#[test]
fn callbacks_can_be_invoked_once_by_value() {
    let mut r: Registry<Box<dyn FnOnce(Js) -> usize>> = Registry::new();
    let id = r.register(Box::new(|js| js.into_int().unwrap() + 1));
    r.mark_ready(id, Js::Int(41));
    let mut batch = r.run_ready_callbacks();
    assert_eq!(batch.len(), 1);
    let (callback, result) = batch.pop().unwrap();
    assert_eq!(callback(result), 42);
    assert!(r.fire(id).is_none());
}
