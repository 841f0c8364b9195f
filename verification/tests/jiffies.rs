use dscale::jiffies::capped_add;
use dscale::jiffies::Jiffies;

#[test]
fn jiffies_add_and_subtract() {
    assert_eq!(Jiffies(3) + Jiffies(4), Jiffies(7));
    assert_eq!(Jiffies(10) - Jiffies(4), Jiffies(6));
    assert_eq!(3usize * Jiffies(5), 15);
}

#[test]
fn jiffies_advance_in_place() {
    let mut t = Jiffies(5);
    t.advance(Jiffies(6));
    assert_eq!(t, Jiffies(11));
    t.advance_by(9);
    assert_eq!(t, Jiffies(20));
}

#[test]
fn jiffies_are_ordered_by_their_ticks() {
    assert!(Jiffies(1) < Jiffies(2));
    assert!(Jiffies(2) <= Jiffies(2));
    assert_eq!(Jiffies(7).max(Jiffies(3)), Jiffies(7));
    assert_eq!(Jiffies(7).min(Jiffies(3)), Jiffies(3));
    assert_eq!(Jiffies::default(), Jiffies(0));
}

#[test]
fn jiffies_are_written_with_their_name() {
    assert_eq!(Jiffies(12345).to_text(), "Jiffies(12345)");
    assert_eq!(Jiffies(0).to_text(), "Jiffies(0)");
    assert_eq!(Jiffies(10).to_text(), "Jiffies(10)");
}

#[test]
fn capped_add_stops_at_the_largest_instant() {
    assert_eq!(capped_add(2, 3), 5);
    assert_eq!(capped_add(usize::MAX, 1), usize::MAX);
    assert_eq!(capped_add(usize::MAX - 1, 1), usize::MAX);
    assert_eq!(capped_add(usize::MAX - 1, 5), usize::MAX);
}

#[test]
fn decimal_text_of_numbers() {
    assert_eq!(dscale::text::decimal_text(0), "0");
    assert_eq!(dscale::text::decimal_text(9), "9");
    assert_eq!(dscale::text::decimal_text(1000), "1000");
    assert_eq!(dscale::text::decimal_text(usize::MAX), usize::MAX.to_string());
}
