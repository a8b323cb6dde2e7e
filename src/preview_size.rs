use vstd::prelude::*;
use vstd::string::StringExecFns;

use crate::decimal::{
    decimal, decimal_string, decimal_value, is_canonical_decimal, is_digit,
    lemma_canonical_decimal, lemma_decimal, lemma_decimal_value_grows,
};

verus! {

/// Smallest magnification, in percent, that zooming out may reach.
pub const MIN_PERCENT: u32 = 5;

/// Largest magnification, in percent, that zooming in may reach.
pub const MAX_PERCENT: u32 = 500;

/// The rungs of the zoom ladder, in percent: the magnifications that
/// step-wise zooming moves between.
pub open spec fn is_rung(v: int) -> bool {
    v == 5 || v == 10 || v == 25 || v == 33 || v == 50 || v == 66 || v == 75 || v == 100 || v
        == 133 || v == 150 || v == 200 || v == 500
}

/// `r` is the rung right below `v`.
pub open spec fn is_rung_below(r: int, v: int) -> bool {
    &&& is_rung(r)
    &&& r < v
    &&& forall|q: int| #[trigger] is_rung(q) && q < v ==> q <= r
}

/// `r` is the rung right above `v`.
pub open spec fn is_rung_above(r: int, v: int) -> bool {
    &&& is_rung(r)
    &&& v < r
    &&& forall|q: int| #[trigger] is_rung(q) && v < q ==> r <= q
}

/// The rung right below `v` (meaningful when `v > MIN_PERCENT`).
pub open spec fn rung_below(v: int) -> int {
    choose|r: int| is_rung_below(r, v)
}

/// The rung right above `v` (meaningful when `v < MAX_PERCENT`).
pub open spec fn rung_above(v: int) -> int {
    choose|r: int| is_rung_above(r, v)
}

/// How the preview of an image is sized.
#[derive(Clone, Copy, Debug, PartialEq, Eq, Structural)]
pub enum PreviewSize {
    /// Scale to fit a viewport of the given width and height.
    BestFit(u32, u32),
    /// 100%.
    OriginalSize,
    /// An explicit magnification, in percent.
    Resized(u32),
}

/// The preview size that stands for a magnification of `v` percent: 100% is
/// always `OriginalSize`.
pub open spec fn with_percent(v: int) -> PreviewSize {
    if v == 100 {
        PreviewSize::OriginalSize
    } else {
        PreviewSize::Resized(v as u32)
    }
}

impl PreviewSize {
    /// The magnification in percent (none is meant for `BestFit`).
    pub open spec fn percent(self) -> int {
        match self {
            PreviewSize::BestFit(_, _) => 0,
            PreviewSize::OriginalSize => 100,
            PreviewSize::Resized(v) => v as int,
        }
    }

    /// One step down the ladder; `BestFit` enters the ladder at 100%.
    pub open spec fn step_down(self) -> Option<PreviewSize> {
        match self {
            PreviewSize::BestFit(_, _) => Some(PreviewSize::OriginalSize),
            _ => if self.percent() > MIN_PERCENT {
                Some(with_percent(rung_below(self.percent())))
            } else {
                None
            },
        }
    }

    /// One step up the ladder; `BestFit` enters the ladder at 100%.
    pub open spec fn step_up(self) -> Option<PreviewSize> {
        match self {
            PreviewSize::BestFit(_, _) => Some(PreviewSize::OriginalSize),
            _ => if self.percent() < MAX_PERCENT {
                Some(with_percent(rung_above(self.percent())))
            } else {
                None
            },
        }
    }

    /// A step down by `delta` percent, clamped at `MIN_PERCENT`.
    pub open spec fn step_down_by(self, delta: int) -> Option<PreviewSize> {
        match self {
            PreviewSize::BestFit(_, _) => Some(PreviewSize::OriginalSize),
            _ => if self.percent() - delta >= MIN_PERCENT {
                Some(with_percent(self.percent() - delta))
            } else {
                Some(with_percent(MIN_PERCENT as int))
            },
        }
    }

    /// A step up by `delta` percent, clamped at `MAX_PERCENT`.
    pub open spec fn step_up_by(self, delta: int) -> Option<PreviewSize> {
        match self {
            PreviewSize::BestFit(_, _) => Some(PreviewSize::OriginalSize),
            _ => if self.percent() + delta <= MAX_PERCENT {
                Some(with_percent(self.percent() + delta))
            } else {
                Some(with_percent(MAX_PERCENT as int))
            },
        }
    }

    /// Whether zooming out is possible.
    pub open spec fn has_step_down(self) -> bool {
        !(self matches PreviewSize::Resized(v) && v <= MIN_PERCENT)
    }

    /// Whether zooming in is possible.
    pub open spec fn has_step_up(self) -> bool {
        !(self matches PreviewSize::Resized(v) && v >= MAX_PERCENT)
    }
}

/// The rung right below `v` is unique.
pub proof fn lemma_rung_below(r: int, v: int)
    requires
        is_rung_below(r, v),
    ensures
        rung_below(v) == r,
{
    let c = rung_below(v);
    assert(is_rung_below(c, v));
    assert(is_rung(r) && r < v);
    assert(is_rung(c) && c < v);
}

/// The rung right above `v` is unique.
pub proof fn lemma_rung_above(r: int, v: int)
    requires
        is_rung_above(r, v),
    ensures
        rung_above(v) == r,
{
    let c = rung_above(v);
    assert(is_rung_above(c, v));
    assert(is_rung(r) && v < r);
    assert(is_rung(c) && v < c);
}

proof fn lemma_rung_above_exists(v: int)
    requires
        v < MAX_PERCENT,
    ensures
        is_rung_above(rung_above(v), v),
{
    let r: int = if v < 5 {
        5
    } else if v < 10 {
        10
    } else if v < 25 {
        25
    } else if v < 33 {
        33
    } else if v < 50 {
        50
    } else if v < 66 {
        66
    } else if v < 75 {
        75
    } else if v < 100 {
        100
    } else if v < 133 {
        133
    } else if v < 150 {
        150
    } else if v < 200 {
        200
    } else {
        500
    };
    assert forall|q: int| #[trigger] is_rung(q) && v < q implies r <= q by {}
    lemma_rung_above(r, v);
}

proof fn lemma_rung_below_exists(v: int)
    requires
        v > MIN_PERCENT,
    ensures
        is_rung_below(rung_below(v), v),
{
    let r: int = if v > 500 {
        500
    } else if v > 200 {
        200
    } else if v > 150 {
        150
    } else if v > 133 {
        133
    } else if v > 100 {
        100
    } else if v > 75 {
        75
    } else if v > 66 {
        66
    } else if v > 50 {
        50
    } else if v > 33 {
        33
    } else if v > 25 {
        25
    } else if v > 10 {
        10
    } else {
        5
    };
    assert forall|q: int| #[trigger] is_rung(q) && q < v implies q <= r by {}
    lemma_rung_below(r, v);
}

/// Zooming in step by step strictly raises the magnification for as long as
/// `can_be_larger` holds; once it fails, `larger` offers no further size and
/// the preview stays as it is.
pub proof fn larger_is_monotonic(p: PreviewSize)
    requires
        !(p is BestFit),
    ensures
        p.has_step_up() <==> p.step_up() is Some,
        p.step_up() matches Some(q) ==> q.percent() > p.percent() && !(q is BestFit),
{
    if p.percent() < MAX_PERCENT {
        lemma_rung_above_exists(p.percent());
    }
}

/// Zooming by any delta keeps the magnification within
/// [`MIN_PERCENT`, `MAX_PERCENT`] and moves it only in the direction asked;
/// at a bound, a further step past it leaves the preview size as it is.
pub proof fn steps_by_delta_stay_in_range(p: PreviewSize, delta: u32)
    requires
        !(p is BestFit),
        MIN_PERCENT <= p.percent() <= MAX_PERCENT,
        is_canonical(p),
    ensures
        p.step_up_by(delta as int) matches Some(q) && MIN_PERCENT <= q.percent() <= MAX_PERCENT
            && q.percent() >= p.percent() && is_canonical(q),
        p.step_down_by(delta as int) matches Some(q) && MIN_PERCENT <= q.percent() <= MAX_PERCENT
            && q.percent() <= p.percent() && is_canonical(q),
        p.percent() == MAX_PERCENT ==> p.step_up_by(delta as int) == Some(p),
        p.percent() == MIN_PERCENT ==> p.step_down_by(delta as int) == Some(p),
{
}

/// Zooming out step by step strictly lowers the magnification for as long as
/// `can_be_smaller` holds; once it fails, `smaller` offers no further size
/// and the preview stays as it is.
pub proof fn smaller_is_monotonic(p: PreviewSize)
    requires
        !(p is BestFit),
    ensures
        p.has_step_down() <==> p.step_down() is Some,
        p.step_down() matches Some(q) ==> q.percent() < p.percent() && !(q is BestFit),
{
    if p.percent() > MIN_PERCENT {
        lemma_rung_below_exists(p.percent());
    }
}

/// The text shown for a preview size.
pub open spec fn label_of(p: PreviewSize) -> Seq<char> {
    match p {
        PreviewSize::BestFit(_, _) => "Fit screen"@,
        PreviewSize::OriginalSize => decimal(100) + "%"@,
        PreviewSize::Resized(v) => decimal(v as nat) + "%"@,
    }
}

/// The preview size a label stands for: "Fit screen", whose viewport is
/// still to be measured, or a decimal without leading zeros followed by "%".
pub open spec fn parse_label(s: Seq<char>) -> Option<PreviewSize> {
    if s == "Fit screen"@ {
        Some(PreviewSize::BestFit(0, 0))
    } else if s.len() >= 2 && s.last() == '%' && is_canonical_decimal(s.drop_last())
        && decimal_value(s.drop_last()) <= u32::MAX {
        Some(with_percent(decimal_value(s.drop_last()) as int))
    } else {
        None
    }
}

/// 100% is always written `OriginalSize`.
pub open spec fn is_canonical(p: PreviewSize) -> bool {
    !(p matches PreviewSize::Resized(v) && v == 100)
}

/// Reading back the label of a preview size gives that size again (for
/// zoom-to-fit, with its viewport still to be measured).
pub proof fn label_round_trip(p: PreviewSize)
    requires
        is_canonical(p),
    ensures
        parse_label(label_of(p)) == Some(
            match p {
                PreviewSize::BestFit(_, _) => PreviewSize::BestFit(0, 0),
                _ => p,
            },
        ),
{
    reveal_strlit("Fit screen");
    reveal_strlit("%");
    if !(p is BestFit) {
        let v = p.percent();
        let s = label_of(p);
        lemma_decimal(v as nat);
        assert(s.drop_last() =~= decimal(v as nat));
        assert(s.last() == '%');
        assert(s != "Fit screen"@) by {
            assert("Fit screen"@.last() == 'n');
        }
    }
}

/// Each label that reads as a preview size is the label of that size.
pub proof fn parsed_label_round_trip(s: Seq<char>)
    ensures
        parse_label(s) matches Some(p) ==> label_of(p) == s && is_canonical(p),
{
    reveal_strlit("%");
    if let Some(p) = parse_label(s) {
        if s != "Fit screen"@ {
            lemma_canonical_decimal(s.drop_last());
            assert(s =~= s.drop_last() + "%"@);
        }
    }
}

impl PreviewSize {
    /// The text shown for this preview size: "Fit screen", "100%" or the
    /// magnification followed by "%".
    pub fn label(&self) -> (r: String)
        ensures
            r@ == label_of(*self),
    {
        match self {
            PreviewSize::BestFit(_, _) => "Fit screen".to_owned(),
            PreviewSize::OriginalSize => Self::percent_text(100),
            PreviewSize::Resized(v) => Self::percent_text(*v),
        }
    }

    fn percent_text(percent: u32) -> (r: String)
        ensures
            r@ == decimal(percent as nat) + "%"@,
    {
        let mut text = decimal_string(percent);
        text.append("%");
        text
    }

    /// The preview size that a label stands for; see `parse_label`.
    pub fn from_label(label: &str) -> (r: Option<PreviewSize>)
        ensures
            r == parse_label(label@),
    {
        proof {
            reveal_strlit("Fit screen");
        }
        if label.to_owned() == "Fit screen".to_owned() {
            return Some(PreviewSize::BestFit(0, 0));
        }
        let ghost s = label@;
        let ghost digits = s.drop_last();
        if !label.is_ascii() {
            proof {
                if s.len() >= 2 && s.last() == '%' && is_canonical_decimal(digits) {
                    assert forall|i: int| 0 <= i < s.len() implies '\0' <= #[trigger] s[i]
                        <= '\u{7f}' by {
                        if i < s.len() - 1 {
                            assert(s[i] == digits[i]);
                            assert(is_digit(digits[i]));
                        }
                    }
                }
            }
            return None;
        }
        let bytes = label.as_bytes();
        proof {
            vstd::string::is_ascii_spec_bytes(label);
            vstd::utf8::is_ascii_chars_encode_utf8(s);
        }
        assert(bytes@.len() == s.len());
        let n = bytes.len();
        // 37 is '%', 48 to 57 are '0' to '9'.
        if n < 2 || bytes[n - 1] != 37 {
            return None;
        }
        let digits_len = n - 1;
        if bytes[0] == 48 && digits_len > 1 {
            assert(digits[0] == s[0]);
            return None;
        }
        let mut value: u32 = 0;
        let mut i: usize = 0;
        assert(digits.take(0) =~= Seq::<char>::empty());
        while i < digits_len
            invariant
                digits_len == n - 1,
                n == s.len(),
                s == label@,
                s != "Fit screen"@,
                digits == s.drop_last(),
                bytes@ == Seq::new(s.len(), |j: int| s[j] as u8),
                vstd::utf8::is_ascii_chars(s),
                i <= digits_len,
                value == decimal_value(digits.take(i as int)),
                forall|j: int| 0 <= j < i ==> is_digit(#[trigger] digits[j]),
            decreases digits_len - i,
        {
            let b = bytes[i];
            assert(digits[i as int] == s[i as int]);
            assert(b as u32 == s[i as int] as u32);
            if b < 48 || b > 57 {
                return None;
            }
            let d = (b - 48) as u32;
            assert(digits.take(i + 1).drop_last() =~= digits.take(i as int));
            if value > (u32::MAX - d) / 10 {
                proof {
                    assert(value * 10 + d > u32::MAX) by (nonlinear_arith)
                        requires
                            value > (u32::MAX - d) / 10,
                            d <= 9,
                    ;
                    lemma_decimal_value_grows(digits, i + 1);
                }
                return None;
            }
            assert(value * 10 + d <= u32::MAX) by (nonlinear_arith)
                requires
                    value <= (u32::MAX - d) / 10,
                    d <= 9,
            ;
            value = value * 10 + d;
            i = i + 1;
        }
        assert(digits.take(digits_len as int) =~= digits);
        assert(digits[0] == s[0]);
        if value == 100 {
            Some(PreviewSize::OriginalSize)
        } else {
            Some(PreviewSize::Resized(value))
        }
    }

    fn ladder_size(v: u32) -> (r: PreviewSize)
        requires
            is_rung(v as int),
        ensures
            r == with_percent(v as int),
    {
        if v == 100 {
            PreviewSize::OriginalSize
        } else {
            PreviewSize::Resized(v)
        }
    }

    /// The next smaller preview size on the zoom ladder, or `None` at the
    /// bottom of the ladder.
    pub fn smaller(self) -> (r: Option<PreviewSize>)
        ensures
            r == self.step_down(),
    {
        let v: u32 = match self {
            PreviewSize::BestFit(_, _) => return Some(PreviewSize::OriginalSize),
            PreviewSize::OriginalSize => 100,
            PreviewSize::Resized(value) => value,
        };
        if v <= MIN_PERCENT {
            return None;
        }
        let rung: u32 = if v > 500 {
            500
        } else if v > 200 {
            200
        } else if v > 150 {
            150
        } else if v > 133 {
            133
        } else if v > 100 {
            100
        } else if v > 75 {
            75
        } else if v > 66 {
            66
        } else if v > 50 {
            50
        } else if v > 33 {
            33
        } else if v > 25 {
            25
        } else if v > 10 {
            10
        } else {
            5
        };
        proof {
            assert forall|q: int| #[trigger] is_rung(q) && q < v implies q <= rung by {}
            lemma_rung_below(rung as int, v as int);
        }
        Some(Self::ladder_size(rung))
    }

    /// The preview size `value` percent smaller, clamped at `MIN_PERCENT`.
    pub fn smaller_by(self, value: u32) -> (r: Option<PreviewSize>)
        ensures
            r == self.step_down_by(value as int),
    {
        let old_value: u32 = match self {
            PreviewSize::BestFit(_, _) => return Some(PreviewSize::OriginalSize),
            PreviewSize::OriginalSize => 100,
            PreviewSize::Resized(v) => v,
        };
        if value > old_value || old_value - value < MIN_PERCENT {
            Some(PreviewSize::Resized(MIN_PERCENT))
        } else if old_value - value == 100 {
            Some(PreviewSize::OriginalSize)
        } else {
            Some(PreviewSize::Resized(old_value - value))
        }
    }

    /// Whether a smaller preview size exists.
    pub fn can_be_smaller(&self) -> (r: bool)
        ensures
            r == self.has_step_down(),
    {
        match self {
            PreviewSize::Resized(value) => *value > MIN_PERCENT,
            _ => true,
        }
    }

    /// The next larger preview size on the zoom ladder, or `None` at the top
    /// of the ladder.
    pub fn larger(self) -> (r: Option<PreviewSize>)
        ensures
            r == self.step_up(),
    {
        let v: u32 = match self {
            PreviewSize::BestFit(_, _) => return Some(PreviewSize::OriginalSize),
            PreviewSize::OriginalSize => 100,
            PreviewSize::Resized(value) => value,
        };
        if v >= MAX_PERCENT {
            return None;
        }
        let rung: u32 = if v < 5 {
            5
        } else if v < 10 {
            10
        } else if v < 25 {
            25
        } else if v < 33 {
            33
        } else if v < 50 {
            50
        } else if v < 66 {
            66
        } else if v < 75 {
            75
        } else if v < 100 {
            100
        } else if v < 133 {
            133
        } else if v < 150 {
            150
        } else if v < 200 {
            200
        } else {
            500
        };
        proof {
            assert forall|q: int| #[trigger] is_rung(q) && v < q implies rung <= q by {}
            lemma_rung_above(rung as int, v as int);
        }
        Some(Self::ladder_size(rung))
    }

    /// The preview size `value` percent larger, clamped at `MAX_PERCENT`.
    pub fn larger_by(self, value: u32) -> (r: Option<PreviewSize>)
        ensures
            r == self.step_up_by(value as int),
    {
        let old_value: u32 = match self {
            PreviewSize::BestFit(_, _) => return Some(PreviewSize::OriginalSize),
            PreviewSize::OriginalSize => 100,
            PreviewSize::Resized(v) => v,
        };
        if value > MAX_PERCENT || old_value > MAX_PERCENT - value {
            Some(PreviewSize::Resized(MAX_PERCENT))
        } else if old_value + value == 100 {
            Some(PreviewSize::OriginalSize)
        } else {
            Some(PreviewSize::Resized(old_value + value))
        }
    }

    /// Whether a larger preview size exists.
    pub fn can_be_larger(&self) -> (r: bool)
        ensures
            r == self.has_step_up(),
    {
        match self {
            PreviewSize::Resized(value) => *value < MAX_PERCENT,
            _ => true,
        }
    }
}

} // verus!
