use burn::candle::{avg_pool2d_unsupported, conv1d_unsupported, conv2d_unsupported, max_pool2d_unsupported, ConvOptions};

#[test]
fn conv1d_needs_no_dilation() {
    let ok = ConvOptions { stride: [2], padding: [1], dilation: [1], groups: 1 };
    assert_eq!(conv1d_unsupported(&ok), None);
    let dilated = ConvOptions { dilation: [2], ..ok };
    assert_eq!(
        conv1d_unsupported(&dilated),
        Some("Candle does not support dilation different from 1 in convolutions")
    );
}

#[test]
fn conv2d_reasons_come_in_order() {
    let ok = ConvOptions { stride: [2, 2], padding: [1, 1], dilation: [1, 1], groups: 1 };
    assert_eq!(conv2d_unsupported(&ok), None);
    let all_wrong = ConvOptions { stride: [1, 2], padding: [0, 1], dilation: [1, 2], groups: 1 };
    assert_eq!(conv2d_unsupported(&all_wrong), Some("Candle does not support dilation in convolutions"));
    let padding = ConvOptions { dilation: [1, 1], ..all_wrong };
    assert_eq!(
        conv2d_unsupported(&padding),
        Some("Candle does not support per dimension padding in convolutions")
    );
    let stride = ConvOptions { padding: [3, 3], ..padding };
    assert_eq!(
        conv2d_unsupported(&stride),
        Some("Candle does not support per dimension stride in convolutions")
    );
}

#[test]
fn pooling_options() {
    assert_eq!(avg_pool2d_unsupported([0, 0], true), None);
    assert_eq!(avg_pool2d_unsupported([0, 1], false), Some("Candle does not support padding in pooling"));
    assert_eq!(
        avg_pool2d_unsupported([0, 0], false),
        Some("Candle does not support excluding pad count in pooling")
    );
    assert_eq!(max_pool2d_unsupported([0, 0], [1, 1]), None);
    assert_eq!(max_pool2d_unsupported([1, 0], [2, 1]), Some("Candle does not support padding in pooling"));
    assert_eq!(max_pool2d_unsupported([0, 0], [2, 1]), Some("Candle does not support dilation in pooling"));
}
