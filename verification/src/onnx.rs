//! The intermediate representation of imported ONNX graphs, the nodes that
//! generate Burn modules from it, and the adaptation of recorded modules.
use vstd::prelude::*;
use vstd::string::*;

verus! {

/// The element type of an ONNX tensor.
#[derive(Debug, Clone, Copy, PartialEq, Eq, Structural)]
pub enum ElementType {
    Float32,
    Float64,
    Int32,
    Int64,
    String,
    Float16,
}

/// The list of supported node types (ONNX operators and some extra ones).
#[derive(Debug, Clone, Copy, PartialEq, Eq, Structural, Hash)]
pub enum NodeType {
    Linear,
    Gelu,
    Conv1d,
    Conv2d,
    Abs,
    Acos,
    Acosh,
    Add,
    And,
    ArgMax,
    ArgMin,
    Asin,
    Asinh,
    Atan,
    Atanh,
    AveragePool,
    BatchNormalization,
    Bernoulli,
    BitShift,
    BitwiseAnd,
    BitwiseNot,
    BitwiseOr,
    BitwiseXor,
    BlackmanWindow,
    Cast,
    CastLike,
    Ceil,
    Celu,
    CenterCropPad,
    Clip,
    Col,
    Im,
    Compress,
    Concat,
    ConcatFromSequence,
    Constant,
    ConstantOfShape,
    Conv,
    ConvInteger,
    ConvTranspose,
    Cos,
    Cosh,
    CumSum,
    DFT,
    DepthToSpace,
    DequantizeLinear,
    Det,
    Div,
    Dropout,
    DynamicQuantizeLinear,
    Einsum,
    Elu,
    Equal,
    Erf,
    Exp,
    Expand,
    EyeLike,
    Flatten,
    Floor,
    GRU,
    Gather,
    GatherElements,
    GatherND,
    Gemm,
    GlobalAveragePool,
    GlobalLpPool,
    GlobalMaxPool,
    Greater,
    GreaterOrEqual,
    GridSample,
    GroupNormalization,
    HammingWindow,
    HannWindow,
    HardSigmoid,
    HardSwish,
    Hardmax,
    Identity,
    If,
    InstanceNormalization,
    IsInf,
    IsNaN,
    LRN,
    LSTM,
    LayerNormalization,
    LeakyRelu,
    Less,
    LessOrEqual,
    Log,
    LogSoftmax,
    Loop,
    LpNormalization,
    LpPool,
    MatMul,
    MatMulInteger,
    Max,
    MaxPool,
    MaxRoiPool,
    MaxUnpool,
    Mean,
    MeanVarianceNormalization,
    MelWeightMatrix,
    Min,
    Mish,
    Mod,
    Mul,
    Multinomial,
    Neg,
    NegativeLogLikelihoodLoss,
    NonMaxSuppression,
    NonZero,
    Not,
    OneHot,
    Optional,
    OptionalGetElement,
    OptionalHasElement,
    Or,
    PRelu,
    Pad,
    Pow,
    QLinearConv,
    QLinearMatMul,
    QuantizeLinear,
    RNN,
    RandomNormal,
    RandomNormalLike,
    RandomUniform,
    RandomUniformLike,
    Range,
    Reciprocal,
    ReduceL,
    ReduceLogSum,
    ReduceLogSumExp,
    ReduceMax,
    ReduceMean,
    ReduceMin,
    ReduceProd,
    ReduceSum,
    ReduceSumSquare,
    Relu,
    Reshape,
    Resize,
    ReverseSequence,
    RoiAlign,
    Round,
    STFT,
    Scan,
    Scatter,
    ScatterElements,
    ScatterND,
    Selu,
    SequenceAt,
    SequenceConstruct,
    SequenceEmpty,
    SequenceErase,
    SequenceInsert,
    SequenceLength,
    SequenceMap,
    Shape,
    Shrink,
    Sigmoid,
    Sign,
    Sin,
    Sinh,
    Size,
    Slice,
    Softmax,
    SoftmaxCrossEntropyLoss,
    Softplus,
    Softsign,
    SpaceToDepth,
    Split,
    SplitToSequence,
    Sqrt,
    Squeeze,
    StringNormalizer,
    Sub,
    Sum,
    Tan,
    Tanh,
    TfIdfVectorizer,
    ThresholdedRelu,
    Tile,
    TopK,
    Transpose,
    Trilu,
    Unique,
    Unsqueeze,
    Upsample,
    Where,
    Xor,
}

/// A field of a generated module: its name and its type.
#[derive(Debug, Clone)]
pub struct OtherType {
    pub name: String,
    pub ty: String,
}

/// A tensor argument of a generated module: its name and its rank.
#[derive(Debug, Clone)]
pub struct TensorType {
    pub name: String,
    pub dim: usize,
}

/// The values and the shape of a recorded tensor.
#[derive(Debug, Clone)]
pub struct DataSerialize<E> {
    pub value: Vec<E>,
    pub shape: Vec<usize>,
}

/// The configuration of a 2D convolution.
#[derive(Debug, Clone, Copy)]
pub struct Conv2dConfig {
    pub channels: [usize; 2],
    pub kernel_size: [usize; 2],
    pub stride: [usize; 2],
    pub dilation: [usize; 2],
    pub groups: usize,
    pub bias: bool,
}

/// A 2D convolution node of a generated module.
#[derive(Debug, Clone)]
pub struct Conv2dNode<E> {
    pub field: OtherType,
    pub input: TensorType,
    pub output: TensorType,
    pub data_weights: DataSerialize<E>,
    pub data_bias: Option<DataSerialize<E>>,
    pub config: Conv2dConfig,
}

impl<E> Conv2dNode<E> {
    /// A node whose module field is `name`, of type `Conv2d<B>`.
    pub fn new(
        name: &str,
        input: TensorType,
        output: TensorType,
        data_weights: DataSerialize<E>,
        data_bias: Option<DataSerialize<E>>,
        config: Conv2dConfig,
    ) -> (r: Self)
        ensures
            r.field.name@ == name@,
            r.field.ty@ == "Conv2d<B>"@,
            r.input == input,
            r.output == output,
            r.data_weights == data_weights,
            r.data_bias == data_bias,
            r.config == config,
    {
        Conv2dNode {
            field: OtherType { name: name.to_owned(), ty: "Conv2d<B>".to_owned() },
            input,
            output,
            data_weights,
            data_bias,
            config,
        }
    }
}

/// Whether two strings have the same characters.
pub fn str_eq(a: &str, b: &str) -> (r: bool)
    ensures
        r == (a@ == b@),
{
    let n = a.unicode_len();
    if n != b.unicode_len() {
        return false;
    }
    let mut i: usize = 0;
    while i < n
        invariant
            n == a@.len(),
            n == b@.len(),
            i <= n,
            forall|k: int| 0 <= k < i ==> a@[k] == b@[k],
        decreases n - i,
    {
        if a.get_char(i) != b.get_char(i) {
            return false;
        }
        i = i + 1;
    }
    assert(a@ =~= b@);
    true
}

/// The names of the modules whose records an adapter may change.
pub open spec fn is_module_name(name: Seq<char>) -> bool {
    name == "BatchNorm"@
        || name == "Conv1d"@
        || name == "Conv2d"@
        || name == "ConvTranspose1d"@
        || name == "ConvTranspose2d"@
        || name == "Embedding"@
        || name == "GroupNorm"@
        || name == "LayerNorm"@
        || name == "Linear"@
}

/// The names of the modules are distinct.
proof fn lemma_module_names_distinct()
    ensures
        "BatchNorm"@ != "Conv1d"@,
        "BatchNorm"@ != "Conv2d"@,
        "BatchNorm"@ != "ConvTranspose1d"@,
        "BatchNorm"@ != "ConvTranspose2d"@,
        "BatchNorm"@ != "Embedding"@,
        "BatchNorm"@ != "GroupNorm"@,
        "BatchNorm"@ != "LayerNorm"@,
        "BatchNorm"@ != "Linear"@,
        "Conv1d"@ != "Conv2d"@,
        "Conv1d"@ != "ConvTranspose1d"@,
        "Conv1d"@ != "ConvTranspose2d"@,
        "Conv1d"@ != "Embedding"@,
        "Conv1d"@ != "GroupNorm"@,
        "Conv1d"@ != "LayerNorm"@,
        "Conv1d"@ != "Linear"@,
        "Conv2d"@ != "ConvTranspose1d"@,
        "Conv2d"@ != "ConvTranspose2d"@,
        "Conv2d"@ != "Embedding"@,
        "Conv2d"@ != "GroupNorm"@,
        "Conv2d"@ != "LayerNorm"@,
        "Conv2d"@ != "Linear"@,
        "ConvTranspose1d"@ != "ConvTranspose2d"@,
        "ConvTranspose1d"@ != "Embedding"@,
        "ConvTranspose1d"@ != "GroupNorm"@,
        "ConvTranspose1d"@ != "LayerNorm"@,
        "ConvTranspose1d"@ != "Linear"@,
        "ConvTranspose2d"@ != "Embedding"@,
        "ConvTranspose2d"@ != "GroupNorm"@,
        "ConvTranspose2d"@ != "LayerNorm"@,
        "ConvTranspose2d"@ != "Linear"@,
        "Embedding"@ != "GroupNorm"@,
        "Embedding"@ != "LayerNorm"@,
        "Embedding"@ != "Linear"@,
        "GroupNorm"@ != "LayerNorm"@,
        "GroupNorm"@ != "Linear"@,
        "LayerNorm"@ != "Linear"@,
{
    reveal_strlit("BatchNorm");
    reveal_strlit("Conv1d");
    reveal_strlit("Conv2d");
    reveal_strlit("ConvTranspose1d");
    reveal_strlit("ConvTranspose2d");
    reveal_strlit("Embedding");
    reveal_strlit("GroupNorm");
    reveal_strlit("LayerNorm");
    reveal_strlit("Linear");
    assert("BatchNorm"@.len() != "Conv1d"@.len());
    assert("BatchNorm"@.len() != "Conv2d"@.len());
    assert("BatchNorm"@.len() != "ConvTranspose1d"@.len());
    assert("BatchNorm"@.len() != "ConvTranspose2d"@.len());
    assert("BatchNorm"@[0] != "Embedding"@[0]);
    assert("BatchNorm"@[0] != "GroupNorm"@[0]);
    assert("BatchNorm"@[0] != "LayerNorm"@[0]);
    assert("BatchNorm"@.len() != "Linear"@.len());
    assert("Conv1d"@[4] != "Conv2d"@[4]);
    assert("Conv1d"@.len() != "ConvTranspose1d"@.len());
    assert("Conv1d"@.len() != "ConvTranspose2d"@.len());
    assert("Conv1d"@.len() != "Embedding"@.len());
    assert("Conv1d"@.len() != "GroupNorm"@.len());
    assert("Conv1d"@.len() != "LayerNorm"@.len());
    assert("Conv1d"@[0] != "Linear"@[0]);
    assert("Conv2d"@.len() != "ConvTranspose1d"@.len());
    assert("Conv2d"@.len() != "ConvTranspose2d"@.len());
    assert("Conv2d"@.len() != "Embedding"@.len());
    assert("Conv2d"@.len() != "GroupNorm"@.len());
    assert("Conv2d"@.len() != "LayerNorm"@.len());
    assert("Conv2d"@[0] != "Linear"@[0]);
    assert("ConvTranspose1d"@[13] != "ConvTranspose2d"@[13]);
    assert("ConvTranspose1d"@.len() != "Embedding"@.len());
    assert("ConvTranspose1d"@.len() != "GroupNorm"@.len());
    assert("ConvTranspose1d"@.len() != "LayerNorm"@.len());
    assert("ConvTranspose1d"@.len() != "Linear"@.len());
    assert("ConvTranspose2d"@.len() != "Embedding"@.len());
    assert("ConvTranspose2d"@.len() != "GroupNorm"@.len());
    assert("ConvTranspose2d"@.len() != "LayerNorm"@.len());
    assert("ConvTranspose2d"@.len() != "Linear"@.len());
    assert("Embedding"@[0] != "GroupNorm"@[0]);
    assert("Embedding"@[0] != "LayerNorm"@[0]);
    assert("Embedding"@.len() != "Linear"@.len());
    assert("GroupNorm"@[0] != "LayerNorm"@[0]);
    assert("GroupNorm"@.len() != "Linear"@.len());
    assert("LayerNorm"@.len() != "Linear"@.len());
}

/// Changes the recorded values of the modules, by module name.
pub trait BurnModuleAdapter<V>: Sized {
    /// The values of a module named `name` after adaptation: each known
    /// module goes through its own adaptation, whose result is returned; any
    /// other module is left as it is.
    fn adapt(name: &str, data: V) -> (r: V)
        default_ensures
            name@ == "BatchNorm"@ ==> call_ensures(Self::adapt_batch_norm, (data,), r),
            name@ == "Conv1d"@ ==> call_ensures(Self::adapt_conv1d, (data,), r),
            name@ == "Conv2d"@ ==> call_ensures(Self::adapt_conv2d, (data,), r),
            name@ == "ConvTranspose1d"@ ==> call_ensures(Self::adapt_conv_transpose_1d, (data,), r),
            name@ == "ConvTranspose2d"@ ==> call_ensures(Self::adapt_conv_transpose_2d, (data,), r),
            name@ == "Embedding"@ ==> call_ensures(Self::adapt_embedding, (data,), r),
            name@ == "GroupNorm"@ ==> call_ensures(Self::adapt_group_norm, (data,), r),
            name@ == "LayerNorm"@ ==> call_ensures(Self::adapt_layer_norm, (data,), r),
            name@ == "Linear"@ ==> call_ensures(Self::adapt_linear, (data,), r),
            !is_module_name(name@) ==> r == data,
    {
        proof {
            lemma_module_names_distinct();
        }
        if str_eq(name, "BatchNorm") {
            Self::adapt_batch_norm(data)
        } else if str_eq(name, "Conv1d") {
            Self::adapt_conv1d(data)
        } else if str_eq(name, "Conv2d") {
            Self::adapt_conv2d(data)
        } else if str_eq(name, "ConvTranspose1d") {
            Self::adapt_conv_transpose_1d(data)
        } else if str_eq(name, "ConvTranspose2d") {
            Self::adapt_conv_transpose_2d(data)
        } else if str_eq(name, "Embedding") {
            Self::adapt_embedding(data)
        } else if str_eq(name, "GroupNorm") {
            Self::adapt_group_norm(data)
        } else if str_eq(name, "LayerNorm") {
            Self::adapt_layer_norm(data)
        } else if str_eq(name, "Linear") {
            Self::adapt_linear(data)
        } else {
            data
        }
    }

    fn adapt_linear(data: V) -> (r: V)
        default_ensures
            r == data,
    {
        data
    }

    fn adapt_conv1d(data: V) -> (r: V)
        default_ensures
            r == data,
    {
        data
    }

    fn adapt_conv2d(data: V) -> (r: V)
        default_ensures
            r == data,
    {
        data
    }

    fn adapt_conv_transpose_1d(data: V) -> (r: V)
        default_ensures
            r == data,
    {
        data
    }

    fn adapt_conv_transpose_2d(data: V) -> (r: V)
        default_ensures
            r == data,
    {
        data
    }

    fn adapt_embedding(data: V) -> (r: V)
        default_ensures
            r == data,
    {
        data
    }

    fn adapt_group_norm(data: V) -> (r: V)
        default_ensures
            r == data,
    {
        data
    }

    fn adapt_layer_norm(data: V) -> (r: V)
        default_ensures
            r == data,
    {
        data
    }

    fn adapt_batch_norm(data: V) -> (r: V)
        default_ensures
            r == data,
    {
        data
    }
}

/// Default adapter that takes no action.
pub struct DefaultAdapter;

impl<V> BurnModuleAdapter<V> for DefaultAdapter {
}

} // verus!
