use vstd::prelude::*;

verus! {

/// A raster size in whole pixels. Both dimensions are nonzero: a pixmap of
/// zero extent cannot be allocated.
#[derive(Debug, Clone, Copy, PartialEq, Eq, Structural)]
pub struct ScreenSize {
    width: u32,
    height: u32,
}

impl ScreenSize {
    /// Both dimensions are nonzero.
    pub closed spec fn wf(&self) -> bool {
        self.width >= 1 && self.height >= 1
    }

    pub closed spec fn spec_width(&self) -> u32 {
        self.width
    }

    pub closed spec fn spec_height(&self) -> u32 {
        self.height
    }

    /// A size is accepted exactly when both dimensions are nonzero.
    pub fn new(width: u32, height: u32) -> (r: Option<ScreenSize>)
        ensures
            r is Some <==> (width >= 1 && height >= 1),
            r is Some ==> r->0.spec_width() == width && r->0.spec_height() == height && r->0.wf(),
    {
        if width >= 1 && height >= 1 {
            Some(ScreenSize { width, height })
        } else {
            None
        }
    }

    #[verifier::when_used_as_spec(spec_width)]
    pub fn width(&self) -> (r: u32)
        ensures
            r == self.spec_width(),
    {
        self.width
    }

    #[verifier::when_used_as_spec(spec_height)]
    pub fn height(&self) -> (r: u32)
        ensures
            r == self.spec_height(),
    {
        self.height
    }
}

/// Multiplies both dimensions of a size by a scale factor.
pub fn scale_size(size: ScreenSize, scale: u32) -> (r: ScreenSize)
    requires
        size.wf(),
        scale >= 1,
        size.spec_width() * scale <= u32::MAX,
        size.spec_height() * scale <= u32::MAX,
    ensures
        r.spec_width() == size.spec_width() * scale,
        r.spec_height() == size.spec_height() * scale,
        r.wf(),
{
    proof {
        assert(size.spec_width() * scale >= 1 && size.spec_height() * scale >= 1)
            by (nonlinear_arith)
            requires
                size.spec_width() >= 1 && size.spec_height() >= 1 && scale >= 1,
        ;
    }
    let width = size.width() * scale;
    let height = size.height() * scale;
    ScreenSize { width, height }
}

} // verus!
