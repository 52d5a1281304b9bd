//! What the Candle backend can run of the module operations: the options of
//! convolutions and poolings that it supports.
use vstd::prelude::*;

verus! {

/// The options of a convolution over `N` spatial dimensions.
#[derive(Debug, Clone, Copy)]
pub struct ConvOptions<const N: usize> {
    pub stride: [usize; N],
    pub padding: [usize; N],
    pub dilation: [usize; N],
    pub groups: usize,
}

/// Why a 1D convolution cannot run on Candle, if it cannot: Candle only
/// convolves without dilation.
pub fn conv1d_unsupported(options: &ConvOptions<1>) -> (r: Option<&'static str>)
    ensures
        options.dilation[0] == 1 ==> r is None,
        options.dilation[0] != 1 ==> (r matches Some(m)
            && m@ == "Candle does not support dilation different from 1 in convolutions"@),
{
    if options.dilation[0] != 1 {
        return Some("Candle does not support dilation different from 1 in convolutions");
    }
    None
}

/// Why a 2D convolution cannot run on Candle, if it cannot: Candle only
/// convolves without dilation, and with the same padding and the same stride
/// along both dimensions. The first reason that applies is given.
pub fn conv2d_unsupported(options: &ConvOptions<2>) -> (r: Option<&'static str>)
    ensures
        !(options.dilation[0] == 1 && options.dilation[1] == 1) ==> (r matches Some(m) && m@
            == "Candle does not support dilation in convolutions"@),
        options.dilation[0] == 1 && options.dilation[1] == 1 && options.padding[0]
            != options.padding[1] ==> (r matches Some(m) && m@
            == "Candle does not support per dimension padding in convolutions"@),
        options.dilation[0] == 1 && options.dilation[1] == 1 && options.padding[0]
            == options.padding[1] && options.stride[0] != options.stride[1] ==> (r matches Some(m)
            && m@ == "Candle does not support per dimension stride in convolutions"@),
        options.dilation[0] == 1 && options.dilation[1] == 1 && options.padding[0]
            == options.padding[1] && options.stride[0] == options.stride[1] ==> r is None,
{
    if !(options.dilation[0] == 1 && options.dilation[1] == 1) {
        return Some("Candle does not support dilation in convolutions");
    }
    if options.padding[0] != options.padding[1] {
        return Some("Candle does not support per dimension padding in convolutions");
    }
    if options.stride[0] != options.stride[1] {
        return Some("Candle does not support per dimension stride in convolutions");
    }
    None
}

/// Why a 2D average pooling cannot run on Candle, if it cannot: Candle only
/// pools without padding, counting the padding. The first reason that
/// applies is given.
pub fn avg_pool2d_unsupported(padding: [usize; 2], count_include_pad: bool) -> (r: Option<
    &'static str,
>)
    ensures
        !(padding[0] == 0 && padding[1] == 0) ==> (r matches Some(m) && m@
            == "Candle does not support padding in pooling"@),
        padding[0] == 0 && padding[1] == 0 && !count_include_pad ==> (r matches Some(m) && m@
            == "Candle does not support excluding pad count in pooling"@),
        padding[0] == 0 && padding[1] == 0 && count_include_pad ==> r is None,
{
    if !(padding[0] == 0 && padding[1] == 0) {
        return Some("Candle does not support padding in pooling");
    }
    if !count_include_pad {
        return Some("Candle does not support excluding pad count in pooling");
    }
    None
}

/// Why a 2D max pooling cannot run on Candle, if it cannot: Candle only
/// pools without padding and without dilation. The first reason that applies
/// is given.
pub fn max_pool2d_unsupported(padding: [usize; 2], dilation: [usize; 2]) -> (r: Option<
    &'static str,
>)
    ensures
        !(padding[0] == 0 && padding[1] == 0) ==> (r matches Some(m) && m@
            == "Candle does not support padding in pooling"@),
        padding[0] == 0 && padding[1] == 0 && !(dilation[0] == 1 && dilation[1] == 1) ==> (r matches Some(
            m,
        ) && m@ == "Candle does not support dilation in pooling"@),
        padding[0] == 0 && padding[1] == 0 && dilation[0] == 1 && dilation[1] == 1 ==> r is None,
{
    if !(padding[0] == 0 && padding[1] == 0) {
        return Some("Candle does not support padding in pooling");
    }
    if !(dilation[0] == 1 && dilation[1] == 1) {
        return Some("Candle does not support dilation in pooling");
    }
    None
}

} // verus!
