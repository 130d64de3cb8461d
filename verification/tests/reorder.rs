use simple_parallel::distribute::Distributor;
use simple_parallel::{Packet, Reorderer};

#[test]
fn reorderer_replays_out_of_order_completions_in_order() {
    let mut r: Reorderer<&str> = Reorderer::new();
    assert!(!r.ready());
    r.insert(Packet { idx: 2, data: Some("c") });
    assert!(!r.ready());
    r.insert(Packet { idx: 0, data: Some("a") });
    assert!(r.ready());
    let p = r.pop_ready();
    assert_eq!(p.idx, 0);
    assert_eq!(p.data, Some("a"));
    assert!(!r.ready());
    r.insert(Packet { idx: 1, data: Some("b") });
    assert!(r.ready());
    assert_eq!(r.pop_ready().data, Some("b"));
    assert!(r.ready());
    assert_eq!(r.pop_ready().data, Some("c"));
    assert!(!r.ready());
}

#[test]
fn reorderer_buffers_until_the_oldest_pending_index_arrives() {
    let mut r: Reorderer<u32> = Reorderer::new();
    for idx in [4usize, 1, 3, 2] {
        r.insert(Packet { idx, data: Some(idx as u32 * 7) });
        assert!(!r.ready());
    }
    r.insert(Packet { idx: 0, data: Some(0) });
    for want in 0..5u32 {
        assert!(r.ready());
        let p = r.pop_ready();
        assert_eq!(p.idx, want as usize);
        assert_eq!(p.data, Some(want * 7));
    }
}

#[test]
fn distributor_hands_out_each_element_once_in_input_order() {
    let mut d = Distributor::new(vec!["x", "y", "z"]);
    assert_eq!(d.request(), Some((0, "x")));
    assert_eq!(d.request(), Some((1, "y")));
    assert_eq!(d.request(), Some((2, "z")));
    assert_eq!(d.request(), None);
    assert_eq!(d.request(), None);
}

#[test]
fn distributor_of_an_empty_batch_has_nothing_to_hand_out() {
    let mut d: Distributor<u8> = Distributor::new(Vec::new());
    assert_eq!(d.request(), None);
}
