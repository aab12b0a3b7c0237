use vstd::prelude::*;

verus! {

/// The axis along which a status bar grows and shrinks.
#[derive(Clone, Copy, Debug, PartialEq, Eq, Structural)]
pub enum BarAxis {
    Horizontal,
    Vertical,
}

/// A size in whole units.
#[derive(Clone, Copy, Debug, PartialEq, Eq, Structural)]
pub struct BarSize {
    pub width: u32,
    pub height: u32,
}

/// Links a status bar to the entity whose resource it shows.
#[derive(Clone, Copy, Debug, PartialEq, Eq, Structural)]
pub struct StatusBarOf(pub usize);

/// A bar whose fill mirrors a value against its maximum. It keeps the
/// container's full size, from which every fill is recomputed.
#[derive(Clone, Copy, Debug, PartialEq, Eq, Structural)]
pub struct StatusBar {
    size: BarSize,
    axis: BarAxis,
}

/// The length of `size` along `axis`.
pub open spec fn length_along(size: BarSize, axis: BarAxis) -> u32 {
    match axis {
        BarAxis::Horizontal => size.width,
        BarAxis::Vertical => size.height,
    }
}

/// `len * value / max`, rounded up, so that any value above zero shows.
pub open spec fn scaled_length(len: u32, value: u32, max: u32) -> int {
    (len as int * value as int + max as int - 1) / (max as int)
}

impl StatusBar {
    pub closed spec fn spec_size(&self) -> BarSize {
        self.size
    }

    pub closed spec fn spec_axis(&self) -> BarAxis {
        self.axis
    }

    /// The fill for `value` out of `max`: the container's size, with its
    /// length along the bar's axis scaled by `value / max`.
    pub open spec fn spec_fill(&self, value: u32, max: u32) -> BarSize {
        let len = scaled_length(length_along(self.spec_size(), self.spec_axis()), value, max);
        match self.spec_axis() {
            BarAxis::Horizontal => BarSize { width: len as u32, height: self.spec_size().height },
            BarAxis::Vertical => BarSize { width: self.spec_size().width, height: len as u32 },
        }
    }

    /// A horizontal bar with the given container size.
    pub fn new(size: BarSize) -> (b: StatusBar)
        ensures
            b.spec_size() == size,
            b.spec_axis() == BarAxis::Horizontal,
    {
        StatusBar { size, axis: BarAxis::Horizontal }
    }

    /// The same bar, growing along `axis`.
    pub fn with_axis(self, axis: BarAxis) -> (b: StatusBar)
        ensures
            b.spec_size() == self.spec_size(),
            b.spec_axis() == axis,
    {
        StatusBar { axis, ..self }
    }

    pub fn size(&self) -> (r: BarSize)
        ensures
            r == self.spec_size(),
    {
        self.size
    }

    pub fn axis(&self) -> (r: BarAxis)
        ensures
            r == self.spec_axis(),
    {
        self.axis
    }

    /// The fill for `value` out of `max`, computed from the container size.
    pub fn fill(&self, value: u32, max: u32) -> (r: BarSize)
        requires
            0 < max,
            value <= max,
        ensures
            r == self.spec_fill(value, max),
            scaled_length(length_along(self.spec_size(), self.spec_axis()), value, max)
                <= length_along(self.spec_size(), self.spec_axis()),
        value == 0 ==> length_along(r, self.spec_axis()) == 0,
        value > 0 && length_along(self.spec_size(), self.spec_axis()) > 0 ==> length_along(
            r,
            self.spec_axis(),
        ) > 0,
    {
        let len: u32 = match self.axis {
            BarAxis::Horizontal => self.size.width,
            BarAxis::Vertical => self.size.height,
        };
        proof {
            lemma_scaled_bounded(len, value, max);
        }
        let prod: u64 = len as u64 * value as u64 + (max as u64 - 1);
        let scaled: u64 = prod / max as u64;
        match self.axis {
            BarAxis::Horizontal => BarSize { width: scaled as u32, height: self.size.height },
            BarAxis::Vertical => BarSize { width: self.size.width, height: scaled as u32 },
        }
    }
}

proof fn lemma_scaled_bounded(len: u32, value: u32, max: u32)
    requires
        0 < max,
        value <= max,
    ensures
        0 <= scaled_length(len, value, max) <= len,
        len as int * value as int + max as int - 1 <= u64::MAX,
        value == 0 ==> scaled_length(len, value, max) == 0,
        value > 0 && len > 0 ==> scaled_length(len, value, max) > 0,
{
    let n = len as int * value as int + max as int - 1;
    assert(len as int * value as int <= len as int * max as int) by (nonlinear_arith)
        requires
            value <= max,
    ;
    assert(n < (len as int + 1) * max as int) by (nonlinear_arith)
        requires
            n == len as int * value as int + max as int - 1,
            len as int * value as int <= len as int * max as int,
    ;
    assert(n / (max as int) <= len as int) by (nonlinear_arith)
        requires
            n < (len as int + 1) * max as int,
            0 <= n,
            0 < max,
    ;
    assert(0 <= n / (max as int)) by (nonlinear_arith)
        requires
            0 < max,
            0 <= n,
    ;
    assert(len as int * value as int <= u32::MAX as int * u32::MAX as int) by (nonlinear_arith)
        requires
            len <= u32::MAX,
            value <= u32::MAX,
    ;
    if value == 0 {
        assert(n == max - 1);
        assert(n / (max as int) == 0) by (nonlinear_arith)
            requires
                n == max - 1,
                0 < max,
        ;
    }
    if value > 0 && len > 0 {
        assert(len as int * value as int >= 1) by (nonlinear_arith)
            requires
                len >= 1,
                value >= 1,
        ;
        assert(n / (max as int) >= 1) by (nonlinear_arith)
            requires
                n >= max,
                0 < max,
        ;
    }
}

/// A bar with a non-empty container shows an empty fill exactly when the
/// value is zero.
pub proof fn lemma_fill_empty_iff_zero(bar: StatusBar, value: u32, max: u32)
    requires
        0 < max,
        value <= max,
        0 < length_along(bar.spec_size(), bar.spec_axis()),
    ensures
        length_along(bar.spec_fill(value, max), bar.spec_axis()) == 0 <==> value == 0,
{
    lemma_scaled_bounded(length_along(bar.spec_size(), bar.spec_axis()), value, max);
}

} // verus!
