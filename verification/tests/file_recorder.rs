use burn::param::{state_with_id, Param, ParamId, State};
use burn::record::{
    record_error_from_io, FileBinGzRecorder, FileBinRecorder, FileJsonGzRecorder, FileMpkGzRecorder,
    FileRecorder, IoErrorKind, RecordError, RecordFormat,
};
use burn::tensor::{Data, Device, Tensor};

/// The record of a linear module of 32 inputs and 32 outputs, with a bias:
/// the weight's values and shape, then the bias's.
type LinearRecord = ((Vec<f32>, Vec<usize>), (Vec<f32>, Vec<usize>));

fn param(name: &str, shape: Vec<usize>, values: Vec<f32>) -> Param<Tensor<f32>> {
    Param {
        id: ParamId { value: name.to_string() },
        value: Tensor { shape, values, device: Device { index: 0 } },
    }
}

fn create_model() -> (Param<Tensor<f32>>, Param<Tensor<f32>>) {
    let weight: Vec<f32> = (0..32 * 32).map(|i| (i as f32) * 0.25 - 100.0).collect();
    let bias: Vec<f32> = (0..32).map(|i| (i as f32) / 3.0).collect();
    (param("weight", vec![32, 32], weight), param("bias", vec![32], bias))
}

fn empty_model() -> (Param<Tensor<f32>>, Param<Tensor<f32>>) {
    (param("w0", vec![32, 32], vec![0.0; 32 * 32]), param("b0", vec![32], vec![0.0; 32]))
}

/// The identifier and the data of a parameter state.
fn split_state(state: &State<f32>) -> (String, Vec<f32>, Vec<usize>) {
    match state {
        State::StateNamed(named) => {
            let data = match &named.values[0].state {
                State::Data(d) => (d.value.clone(), d.shape.clone()),
                _ => panic!("no data"),
            };
            let id = match &named.values[1].state {
                State::ParamId(id) => id.value.clone(),
                _ => panic!("no id"),
            };
            (id, data.0, data.1)
        }
        _ => panic!("not a named state"),
    }
}

fn serialize(format: RecordFormat, record: &LinearRecord) -> Vec<u8> {
    match format {
        RecordFormat::Bincode => {
            bincode::serde::encode_to_vec(record, bincode::config::standard()).unwrap()
        }
        RecordFormat::Json => serde_json::to_vec(record).unwrap(),
        RecordFormat::MessagePack => rmp_serde::to_vec(record).unwrap(),
    }
}

fn deserialize(format: RecordFormat, bytes: &[u8]) -> LinearRecord {
    match format {
        RecordFormat::Bincode => {
            bincode::serde::decode_from_slice(bytes, bincode::config::standard()).unwrap().0
        }
        RecordFormat::Json => serde_json::from_slice(bytes).unwrap(),
        RecordFormat::MessagePack => rmp_serde::from_slice(bytes).unwrap(),
    }
}

fn test_can_save_and_load<R: FileRecorder>() {
    let model_before = create_model();
    let weight_before = split_state(&model_before.0.state());
    let bias_before = split_state(&model_before.1.state());
    let record: LinearRecord = (
        (weight_before.1.clone(), weight_before.2.clone()),
        (bias_before.1.clone(), bias_before.2.clone()),
    );

    let payload = serialize(R::format(), &record);
    let stored = R::record_bytes(&payload).unwrap();
    let loaded = R::load_bytes(&stored).unwrap();
    let record_after = deserialize(R::format(), &loaded);

    let mut model_after = empty_model();
    let weight_state = state_with_id(
        ParamId { value: weight_before.0.clone() },
        State::Data(Data { value: (record_after.0).0, shape: (record_after.0).1 }),
    );
    let bias_state = state_with_id(
        ParamId { value: bias_before.0.clone() },
        State::Data(Data { value: (record_after.1).0, shape: (record_after.1).1 }),
    );
    model_after.0.load(&weight_state).unwrap();
    model_after.1.load(&bias_state).unwrap();

    assert_eq!(split_state(&model_after.0.state()), weight_before);
    assert_eq!(split_state(&model_after.1.state()), bias_before);
}

#[test]
fn test_can_save_and_load_jsongz_format() {
    test_can_save_and_load::<FileJsonGzRecorder>()
}

#[test]
fn test_can_save_and_load_bin_format() {
    test_can_save_and_load::<FileBinRecorder>()
}

#[test]
fn test_can_save_and_load_bingz_format() {
    test_can_save_and_load::<FileBinGzRecorder>()
}

#[test]
fn test_can_save_and_load_mpkgz_format() {
    test_can_save_and_load::<FileMpkGzRecorder>()
}

#[test]
fn recorders_use_their_extension_and_format() {
    assert_eq!(FileBinRecorder::file_extension(), "bin");
    assert_eq!(FileBinGzRecorder::file_extension(), "bin.gz");
    assert_eq!(FileJsonGzRecorder::file_extension(), "json.gz");
    assert_eq!(FileMpkGzRecorder::file_extension(), "mpk.gz");
    assert_eq!(FileBinRecorder::format(), RecordFormat::Bincode);
    assert_eq!(FileBinGzRecorder::format(), RecordFormat::Bincode);
    assert_eq!(FileJsonGzRecorder::format(), RecordFormat::Json);
    assert_eq!(FileMpkGzRecorder::format(), RecordFormat::MessagePack);
}

#[test]
fn plain_recorder_stores_the_bytes_as_they_are() {
    let payload = vec![1u8, 2, 3, 250];
    assert_eq!(FileBinRecorder::record_bytes(&payload).unwrap(), payload);
    assert_eq!(FileBinRecorder::load_bytes(&payload).unwrap(), payload);
}

#[test]
fn gzip_recorders_store_a_gzip_stream() {
    let payload = b"the same bytes, the same bytes, the same bytes".to_vec();
    let stored = FileBinGzRecorder::record_bytes(&payload).unwrap();
    assert_ne!(stored, payload);
    assert_eq!(&stored[0..2], &[0x1f, 0x8b]);
    assert_eq!(FileJsonGzRecorder::load_bytes(&stored).unwrap(), payload);
    assert_eq!(FileMpkGzRecorder::load_bytes(&stored).unwrap(), payload);
}

#[test]
fn gzip_recorders_refuse_bytes_that_are_not_gzip() {
    let stored = vec![1u8, 2, 3, 4, 5];
    assert!(FileBinGzRecorder::load_bytes(&stored).is_err());
}

#[test]
fn empty_payload_round_trips() {
    let stored = FileJsonGzRecorder::record_bytes(&[]).unwrap();
    assert_eq!(FileJsonGzRecorder::load_bytes(&stored).unwrap(), Vec::<u8>::new());
}

#[test]
fn missing_file_is_told_apart() {
    match record_error_from_io(IoErrorKind::NotFound, "gone".to_string()) {
        RecordError::FileNotFound(m) => assert_eq!(m, "gone"),
        RecordError::Unknown(_) => panic!("wrong error"),
    }
    match record_error_from_io(IoErrorKind::Other, "denied".to_string()) {
        RecordError::Unknown(m) => assert_eq!(m, "denied"),
        RecordError::FileNotFound(_) => panic!("wrong error"),
    }
}
