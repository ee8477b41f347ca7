use forward_pass::stats::RenderPassStatistics;

fn stats(draw_calls: u64, triangles_rendered: u64) -> RenderPassStatistics {
    RenderPassStatistics { draw_calls, triangles_rendered }
}

#[test]
fn default_is_identity() {
    let x = stats(7, 1200);
    assert_eq!(RenderPassStatistics::default().combine(x), x);
    assert_eq!(x.combine(RenderPassStatistics::default()), x);
    assert_eq!(RenderPassStatistics::default(), stats(0, 0));
}

#[test]
fn combine_adds_field_wise() {
    let a = stats(2, 300);
    let b = stats(5, 450);
    assert_eq!(a.combine(b), stats(7, 750));
}

#[test]
fn combine_is_commutative() {
    let a = stats(11, 900);
    let b = stats(4, u64::MAX - 10);
    assert_eq!(a.combine(b), b.combine(a));
}

#[test]
fn combine_is_associative() {
    let a = stats(1, 10);
    let b = stats(2, u64::MAX - 15);
    let c = stats(3, 30);
    assert_eq!(a.combine(b).combine(c), a.combine(b.combine(c)));
}

#[test]
fn combine_saturates_at_the_counter_limit() {
    let a = stats(u64::MAX - 1, u64::MAX);
    let b = stats(5, 1);
    assert_eq!(a.combine(b), stats(u64::MAX, u64::MAX));
}
