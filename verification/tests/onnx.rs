use burn::onnx::{
    str_eq, BurnModuleAdapter, Conv2dConfig, Conv2dNode, DataSerialize, DefaultAdapter, ElementType,
    NodeType, TensorType,
};

#[test]
fn conv2d_node_field_is_a_conv2d_module() {
    let node = Conv2dNode::new(
        "conv2d",
        TensorType { name: "input".to_string(), dim: 4 },
        TensorType { name: "output".to_string(), dim: 4 },
        DataSerialize { value: vec![1.0f32; 8], shape: vec![2, 1, 2, 2] },
        None,
        Conv2dConfig { channels: [1, 2], kernel_size: [2, 2], stride: [1, 1], dilation: [1, 1], groups: 1, bias: false },
    );
    assert_eq!(node.field.name, "conv2d");
    assert_eq!(node.field.ty, "Conv2d<B>");
    assert_eq!(node.input.name, "input");
    assert_eq!(node.output.name, "output");
    assert_eq!(node.data_weights.shape, vec![2, 1, 2, 2]);
    assert!(node.data_bias.is_none());
    assert_eq!(node.config.channels, [1, 2]);
}

#[test]
fn strings_are_equal_when_their_characters_are() {
    assert!(str_eq("Linear", "Linear"));
    assert!(!str_eq("Linear", "Linea"));
    assert!(!str_eq("Conv1d", "Conv2d"));
    assert!(str_eq("", ""));
    assert!(str_eq("größe", "größe"));
}

#[test]
fn default_adapter_changes_nothing() {
    for name in ["BatchNorm", "Conv1d", "Conv2d", "ConvTranspose1d", "ConvTranspose2d", "Embedding", "GroupNorm", "LayerNorm", "Linear", "Other"] {
        assert_eq!(DefaultAdapter::adapt(name, vec![1u8, 2]), vec![1u8, 2]);
    }
    assert_eq!(<DefaultAdapter as BurnModuleAdapter<u32>>::adapt_linear(5), 5);
}

struct DoubleLinear;

impl BurnModuleAdapter<u32> for DoubleLinear {
    fn adapt_linear(data: u32) -> u32 {
        data * 2
    }
}

#[test]
fn adapters_are_chosen_by_module_name() {
    assert_eq!(DoubleLinear::adapt("Linear", 4), 8);
    assert_eq!(DoubleLinear::adapt("Conv2d", 4), 4);
    assert_eq!(DoubleLinear::adapt("linear", 4), 4);
}

#[test]
fn ir_enums_compare() {
    assert_eq!(ElementType::Float32, ElementType::Float32);
    assert_ne!(ElementType::Int64, ElementType::String);
    assert_eq!(NodeType::Conv2d, NodeType::Conv2d);
    assert_ne!(NodeType::Conv1d, NodeType::Conv2d);
}
