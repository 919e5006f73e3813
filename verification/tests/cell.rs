use cfgtree::observer::Observe;

fn bump(ctx: u64, _value: i32) -> u64 {
    ctx + 1
}

fn record(_ctx: i64, value: i32) -> i64 {
    value as i64 + 1
}

struct Holder {
    obs: Observe<i32, fn(Holder, i32) -> Holder>,
    seen: i64,
    count: u64,
}

fn note(mut ctx: Holder, value: i32) -> Holder {
    ctx.seen = value as i64;
    ctx.count += 1;
    ctx
}

fn get_cell(c: &Holder) -> Observe<i32, fn(Holder, i32) -> Holder> {
    c.obs.clone()
}

fn put_cell(mut c: Holder, cell: Observe<i32, fn(Holder, i32) -> Holder>) -> Holder {
    c.obs = cell;
    c
}

#[test]
fn simple_set_and_get() {
    let mut obs: Observe<i32, fn(u64, i32) -> u64> = Observe::new(0);
    let ctx = obs.set(17, 0u64);
    assert_eq!(17, *obs.get());
    assert_eq!(0, ctx);
}

#[test]
fn subscriber_sees_the_new_value() {
    let mut obs: Observe<i32, fn(i64, i32) -> i64> = Observe::new(0);
    obs.subscribe(1, record);
    let ctx = obs.set(41, 0i64);
    assert_eq!(41, *obs.get());
    assert_eq!(42, ctx);
}

#[test]
fn set_notifies_every_time() {
    let mut obs: Observe<i32, fn(u64, i32) -> u64> = Observe::new(0);
    obs.subscribe(1, bump);
    let mut ctx: u64 = 0;
    for _ in 0..3 {
        ctx = obs.set(9, ctx);
    }
    assert_eq!(3, ctx);
    assert_eq!(9, *obs.get());
}

#[test]
fn same_subscriber_twice_runs_once() {
    let mut obs: Observe<i32, fn(u64, i32) -> u64> = Observe::new(0);
    obs.subscribe(1, bump);
    let ctx = obs.set(5, 0u64);
    assert_eq!(1, ctx);
    obs.subscribe(1, bump);
    let ctx = obs.set(6, ctx);
    assert_eq!(2, ctx);
    assert_eq!(1, obs.count_subscribers());
}

#[test]
fn unsubscribe_removes_only_matching() {
    let mut obs: Observe<i32, fn(u64, i32) -> u64> = Observe::new(0);
    obs.subscribe(1, bump);
    obs.unsubscribe(2);
    assert_eq!(1, obs.count_subscribers());
    obs.unsubscribe(1);
    assert_eq!(0, obs.count_subscribers());
    let ctx = obs.set(3, 0u64);
    assert_eq!(0, ctx);
}

#[test]
fn compare_and_set_notifies_at_most_once() {
    let mut obs: Observe<i32, fn(u64, i32) -> u64> = Observe::new(0);
    obs.subscribe(1, bump);
    let mut ctx: u64 = 0;
    for _ in 0..5 {
        ctx = obs.compare_and_set(9, ctx);
    }
    assert_eq!(1, ctx);
    assert_eq!(9, *obs.get());
}

#[test]
fn dependency_set_notifies_every_time() {
    let mut h = Holder { obs: Observe::new(0), seen: -1, count: 0 };
    h.obs.subscribe(1, note);
    let h = Observe::dependency_set(h, get_cell, put_cell, 7);
    assert_eq!(7, h.seen);
    assert_eq!(7, *h.obs.get());
    assert_eq!(1, h.count);
    let h = Observe::dependency_set(h, get_cell, put_cell, 7);
    assert_eq!(2, h.count);
}

#[test]
fn dependency_compare_and_set_notifies_once() {
    let mut h = Holder { obs: Observe::new(0), seen: -1, count: 0 };
    h.obs.subscribe(1, note);
    for _ in 0..4 {
        h = Observe::dependency_compare_and_set(h, get_cell, put_cell, 5);
    }
    assert_eq!(1, h.count);
    assert_eq!(5, h.seen);
    assert_eq!(5, *h.obs.get());
}

#[test]
fn default_cell_is_empty() {
    let obs: Observe<i32, fn(u64, i32) -> u64> = Default::default();
    assert_eq!(0, *obs.get());
    assert_eq!(0, obs.count_subscribers());
}
