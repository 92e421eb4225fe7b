//! Curves, tweens and the timeline.
use frostify_gfx::anim::{spring_eval, Curve, Timeline};
use frostify_gfx::scalar::{Fixed, Scalar};
use frostify_gfx::signal::{Color, Number, Signals};

#[derive(Copy, Clone, Debug, PartialEq)]
struct F(f32);

impl Scalar for F {
    fn rat(n: i64, d: u32) -> F {
        F::ratio(n, d)
    }
    fn cnt(n: u64) -> F {
        F::count(n)
    }
    fn huge() -> F {
        F::far()
    }
    fn sum(self, other: F) -> F {
        self.plus(other)
    }
    fn diff(self, other: F) -> F {
        self.minus(other)
    }
    fn prod(self, other: F) -> F {
        self.times(other)
    }
    fn quot(self, other: F) -> F {
        self.over(other)
    }
    fn hi(self, other: F) -> F {
        self.larger(other)
    }
    fn lo(self, other: F) -> F {
        self.smaller(other)
    }
    fn rnd(self) -> F {
        self.round()
    }
    fn whole(self) -> u32 {
        self.to_u32()
    }
    fn root(self) -> F {
        self.sqrt()
    }
    fn expo(self) -> F {
        self.exp()
    }
    fn sine(self) -> F {
        self.sin()
    }
    fn cosine(self) -> F {
        self.cos()
    }
    fn less(self, other: F) -> bool {
        self.lt(other)
    }
    fn leq(self, other: F) -> bool {
        self.le(other)
    }
    fn eqv(self, other: F) -> bool {
        self.same(other)
    }
    fn ratio(n: i64, d: u32) -> F {
        F(n as f32 / d as f32)
    }
    fn count(n: u64) -> F {
        F(n as f32)
    }
    fn far() -> F {
        F(1.0e30)
    }
    fn plus(self, other: F) -> F {
        F(self.0 + other.0)
    }
    fn minus(self, other: F) -> F {
        F(self.0 - other.0)
    }
    fn times(self, other: F) -> F {
        F(self.0 * other.0)
    }
    fn over(self, other: F) -> F {
        F(self.0 / other.0)
    }
    fn larger(self, other: F) -> F {
        F(self.0.max(other.0))
    }
    fn smaller(self, other: F) -> F {
        F(self.0.min(other.0))
    }
    fn round(self) -> F {
        F(self.0.round())
    }
    fn to_u32(self) -> u32 {
        self.0 as u32
    }
    fn sqrt(self) -> F {
        F(self.0.sqrt())
    }
    fn exp(self) -> F {
        F(self.0.exp())
    }
    fn sin(self) -> F {
        F(self.0.sin())
    }
    fn cos(self) -> F {
        F(self.0.cos())
    }
    fn lt(self, other: F) -> bool {
        self.0 < other.0
    }
    fn le(self, other: F) -> bool {
        self.0 <= other.0
    }
    fn same(self, other: F) -> bool {
        self.0 == other.0
    }
    fn identical(self, other: F) -> bool {
        self.0.to_bits() == other.0.to_bits()
    }
}

const MS: u64 = 1_000_000;

fn n(v: f32) -> Number<F> {
    Number { value: F(v) }
}

#[test]
fn linear_end_to_end() {
    let mut sig: Signals<F> = Signals::new();
    let s = sig.numbers.signal(n(0.0));
    let mut tl: Timeline<F> = Timeline::new();
    let now = 5 * MS;
    tl.start(0, s, F(1.0), Curve::Linear, 100 * MS, now, &sig.numbers);
    assert!(tl.active());
    let mid = tl.tick(now + 50 * MS, &mut sig);
    assert!(mid.updated);
    assert!((sig.numbers.get(s).value.0 - 0.5).abs() < 1e-3);
    let end = tl.tick(now + 120 * MS, &mut sig);
    assert!(end.updated);
    assert!(!tl.active());
    assert_eq!(sig.numbers.get(s).value, F(1.0));
}

#[test]
fn ease_in_out_monotonic() {
    let c: Curve<F> = Curve::EaseInOut;
    let mut prev = -1.0;
    for i in 0..=10 {
        let y = c.eval(F(i as f32 / 10.0)).0;
        assert!(y >= prev);
        prev = y;
    }
    assert!((c.eval(F(0.0)).0).abs() < 1e-4);
    assert!((c.eval(F(1.0)).0 - 1.0).abs() < 1e-4);
}

#[test]
fn cubic_bezier_endpoints() {
    let c: Curve<F> = Curve::CubicBezier([F(0.42), F(0.0), F(0.58), F(1.0)]);
    assert!(c.eval(F(0.0)).0.abs() < 1e-3);
    assert!((c.eval(F(1.0)).0 - 1.0).abs() < 1e-3);
}

#[test]
fn spring_settles_near_target() {
    let (x, _v) = spring_eval(F(180.0), F(20.0), F(2.0));
    assert!((x.0 - 1.0).abs() < 1e-2);
}

#[test]
fn restart_picks_up_current_value() {
    let mut sig: Signals<F> = Signals::new();
    let s = sig.numbers.signal(n(0.0));
    let mut tl: Timeline<F> = Timeline::new();
    let now = 0;
    tl.start(0, s, F(1.0), Curve::Linear, 100 * MS, now, &sig.numbers);
    tl.tick(now + 40 * MS, &mut sig);
    let mid_val = sig.numbers.get(s).value;
    tl.start(0, s, F(0.0), Curve::Linear, 100 * MS, now + 40 * MS, &sig.numbers);
    assert_eq!(tl.len(), 1);
    let tw = &tl.numbers()[0];
    assert_eq!(tw.from.value, mid_val);
    assert_eq!(tw.to.value, F(0.0));
}

#[test]
fn a_tween_to_where_it_is_does_not_start() {
    let mut sig: Signals<F> = Signals::new();
    let s = sig.numbers.signal(n(1.0));
    let mut tl: Timeline<F> = Timeline::new();
    tl.start(3, s, F(1.0), Curve::Linear, 100 * MS, 0, &sig.numbers);
    assert!(tl.is_empty());
    let r = tl.tick(10, &mut sig);
    assert!(!r.updated);
    assert!(r.next_deadline.is_none());
}

#[test]
fn a_key_has_one_tween_over_both_kinds() {
    let mut sig: Signals<F> = Signals::new();
    let s = sig.numbers.signal(n(0.0));
    let c = sig.colors.signal(Color { rgba: [F(0.0); 4] });
    let mut tl: Timeline<F> = Timeline::new();
    tl.start(7, s, F(1.0), Curve::Linear, 100 * MS, 0, &sig.numbers);
    tl.start_color(7, c, Color { rgba: [F(1.0); 4] }, Curve::Linear, 100 * MS, 0, &sig.colors);
    assert_eq!(tl.len(), 1);
    assert_eq!(tl.numbers().len(), 0);
    tl.stop(7);
    assert_eq!(tl.len(), 0);
}

#[test]
fn deadlines_follow_the_interval() {
    let mut sig: Signals<F> = Signals::new();
    let s = sig.numbers.signal(n(0.0));
    let mut tl: Timeline<F> = Timeline::new();
    assert_eq!(tl.tick_interval(), 16 * MS);
    tl.set_tick_interval(5 * MS);
    tl.start(0, s, F(1.0), Curve::Linear, 100 * MS, 0, &sig.numbers);
    let r = tl.tick(20 * MS, &mut sig);
    assert_eq!(r.next_deadline, Some(25 * MS));
}

#[test]
fn colours_blend_channel_by_channel() {
    let mut sig: Signals<F> = Signals::new();
    let c = sig.colors.signal(Color { rgba: [F(0.0), F(1.0), F(0.5), F(1.0)] });
    let mut tl: Timeline<F> = Timeline::new();
    tl.start_color(
        1,
        c,
        Color { rgba: [F(1.0), F(0.0), F(0.5), F(1.0)] },
        Curve::Linear,
        100 * MS,
        0,
        &sig.colors,
    );
    tl.tick(25 * MS, &mut sig);
    assert_eq!(sig.colors.get(c).rgba, [F(0.25), F(0.75), F(0.5), F(1.0)]);
}

#[test]
fn a_spring_is_cut_off_at_its_duration() {
    let mut sig: Signals<F> = Signals::new();
    let s = sig.numbers.signal(n(0.0));
    let mut tl: Timeline<F> = Timeline::new();
    let spring = Curve::Spring { stiffness: F(1.0), damping: F(0.1) };
    tl.start(0, s, F(1.0), spring, 200 * MS, 0, &sig.numbers);
    tl.tick(199 * MS, &mut sig);
    assert!(tl.active());
    tl.tick(200 * MS, &mut sig);
    assert!(!tl.active());
    assert_eq!(sig.numbers.get(s).value, F(1.0));
}

#[test]
fn finishing_lands_everything() {
    let mut sig: Signals<F> = Signals::new();
    let s = sig.numbers.signal(n(0.0));
    let c = sig.colors.signal(Color { rgba: [F(0.0); 4] });
    let mut tl: Timeline<F> = Timeline::new();
    tl.start(1, s, F(3.0), Curve::Linear, 3_600_000 * MS, 0, &sig.numbers);
    tl.start_color(2, c, Color { rgba: [F(0.5); 4] }, Curve::EaseInOut, 100 * MS, 0, &sig.colors);
    tl.finish(&mut sig);
    assert!(!tl.active());
    assert_eq!(sig.numbers.get(s).value, F(3.0));
    assert_eq!(sig.colors.get(c).rgba, [F(0.5); 4]);
}

#[test]
fn clearing_leaves_values_where_they_are() {
    let mut sig: Signals<F> = Signals::new();
    let s = sig.numbers.signal(n(0.0));
    let mut tl: Timeline<F> = Timeline::new();
    tl.start(1, s, F(3.0), Curve::Linear, 100 * MS, 0, &sig.numbers);
    tl.tick(50 * MS, &mut sig);
    tl.clear();
    assert!(tl.is_empty());
    assert_eq!(sig.numbers.get(s).value, F(1.5));
}

#[test]
fn ease_in_out_is_the_smoothstep() {
    let c: Curve<F> = Curve::EaseInOut;
    assert_eq!(c.eval(F(0.25)).0, 0.25 * 0.25 * (3.0 - 2.0 * 0.25));
    assert_eq!(c.eval(F(0.5)).0, 0.5);
}

#[test]
fn writes_bump_the_version_only_when_they_change() {
    let mut sig: Signals<F> = Signals::new();
    let s = sig.numbers.signal(n(1.0));
    let v = sig.numbers.version(s);
    assert!(!sig.numbers.set(s, n(1.0)));
    assert_eq!(sig.numbers.version(s), v);
    assert!(sig.numbers.set(s, n(2.0)));
    assert!(sig.numbers.version(s) != v);
    assert_eq!(sig.numbers.get(s).value, F(2.0));
}

#[test]
fn ease_in_out_rises_in_fixed_point() {
    let c: Curve<Fixed> = Curve::EaseInOut;
    for k in 0..256 {
        assert!(c.eval(Fixed { raw: k * 256 }).raw <= c.eval(Fixed { raw: k * 256 + 256 }).raw);
    }
    let (early, late) = (c.eval(Fixed { raw: 1638 }).raw, c.eval(Fixed { raw: 1639 }).raw);
    assert_eq!(early, late + 1, "rounding can cost the last place");
}
