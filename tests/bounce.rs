use raytracing::bounce::{Ending, Next, Path, Surface};

#[test]
fn zero_depth_is_black() {
    let p = Path::new(0);
    assert_eq!(p.next(), Next::Done(Ending::Black));
    assert_eq!(p.scattered, 0);
    assert_eq!(Path::new(-4).next(), Next::Done(Ending::Black));
}

#[test]
fn positive_depth_traces() {
    let p = Path::new(50);
    assert_eq!(p.next(), Next::Trace);
    assert_eq!(p.remaining, 50);
}

#[test]
fn miss_ends_in_sky() {
    let mut p = Path::new(50);
    assert_eq!(p.record(Surface::Missed), Next::Done(Ending::Sky));
    assert_eq!(p.scattered, 0);
    assert_eq!(p.remaining, 50);
}

#[test]
fn absorption_ends_black() {
    let mut p = Path::new(50);
    assert_eq!(p.record(Surface::Scattered), Next::Trace);
    assert_eq!(p.record(Surface::Absorbed), Next::Done(Ending::Black));
    assert_eq!(p.scattered, 1);
}

#[test]
fn scatter_then_miss_keeps_factors() {
    let mut p = Path::new(3);
    assert_eq!(p.record(Surface::Scattered), Next::Trace);
    assert_eq!(p.record(Surface::Scattered), Next::Trace);
    assert_eq!(p.record(Surface::Missed), Next::Done(Ending::Sky));
    assert_eq!(p.scattered, 2);
    assert_eq!(p.remaining, 1);
}

#[test]
fn spent_budget_ends_black() {
    let mut p = Path::new(2);
    assert_eq!(p.record(Surface::Scattered), Next::Trace);
    assert_eq!(p.record(Surface::Scattered), Next::Done(Ending::Black));
    assert_eq!(p.scattered, 2);
    assert_eq!(p.remaining, 0);
    let mut one = Path::new(1);
    assert_eq!(one.record(Surface::Scattered), Next::Done(Ending::Black));
}

#[test]
fn reference_depth_allows_fifty_factors() {
    let mut p = Path::new(50);
    let mut steps = 0;
    while p.next() == Next::Trace {
        p.record(Surface::Scattered);
        steps += 1;
    }
    assert_eq!(steps, 50);
    assert_eq!(p.scattered, 50);
    assert_eq!(p.next(), Next::Done(Ending::Black));
}
