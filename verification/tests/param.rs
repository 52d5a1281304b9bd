use burn::param::{load_with_id, optim_state_named, state_with_id, LoadingError, NamedState, Param, ParamId, State, StateNamed};
use burn::tensor::{Data, Device, Tensor};

fn tensor(shape: Vec<usize>, values: Vec<i32>, device: usize) -> Tensor<i32> {
    Tensor { shape, values, device: Device { index: device } }
}

fn param(id: &str, value: Tensor<i32>) -> Param<Tensor<i32>> {
    Param { id: ParamId { value: id.to_string() }, value }
}

#[test]
fn number_of_parameters_is_the_number_of_values() {
    let p = param("p", tensor(vec![2, 3, 4], vec![0; 24], 0));
    assert_eq!(p.num_params(), 24);
    let none: Param<Option<Tensor<i32>>> = Param { id: ParamId { value: "n".to_string() }, value: None };
    assert_eq!(none.num_params(), 0);
    assert!(none.devices().is_empty());
}

#[test]
fn devices_and_moves() {
    let mut p = param("p", tensor(vec![2], vec![1, 2], 0));
    assert_eq!(p.devices(), vec![Device { index: 0 }]);
    p.to_device(Device { index: 3 });
    assert_eq!(p.devices(), vec![Device { index: 3 }]);
    assert_eq!(p.value.values, vec![1, 2]);
    let mut q: Param<Option<Tensor<i32>>> =
        Param { id: ParamId { value: "q".to_string() }, value: Some(tensor(vec![1], vec![7], 1)) };
    q.to_device(Device { index: 2 });
    assert_eq!(q.devices(), vec![Device { index: 2 }]);
}

#[test]
fn loading_a_state_restores_id_and_values_on_own_device() {
    let source = param("weights", tensor(vec![2, 2], vec![1, 2, 3, 4], 0));
    let mut target = param("other", tensor(vec![1], vec![0], 5));
    target.load(&source.state()).unwrap();
    assert_eq!(target.id.value, "weights");
    assert_eq!(target.value.values, vec![1, 2, 3, 4]);
    assert_eq!(target.value.shape, vec![2, 2]);
    assert_eq!(target.value.device, Device { index: 5 });
}

#[test]
fn state_holds_data_then_id() {
    let p = param("w", tensor(vec![1], vec![9], 0));
    match p.state() {
        State::StateNamed(named) => {
            assert_eq!(named.values.len(), 2);
            assert_eq!(named.values[0].name, "data");
            assert_eq!(named.values[1].name, "id");
        }
        _ => panic!("not a named state"),
    }
}

#[test]
fn loading_data_alone_fails_and_keeps_the_parameter() {
    let mut p = param("w", tensor(vec![1], vec![9], 0));
    let r = p.load(&State::Data(Data { value: vec![1], shape: vec![1] }));
    assert!(r.is_err());
    assert_eq!(p.id.value, "w");
    assert_eq!(p.value.values, vec![9]);
}

#[test]
fn loading_an_id_without_data_loads_the_id_only() {
    let mut p = param("w", tensor(vec![1], vec![9], 0));
    let state = state_with_id(ParamId { value: "new".to_string() }, State::StateNamed(StateNamed::new()));
    let r: Result<(), LoadingError> = p.load(&state);
    assert!(r.is_err());
    assert_eq!(p.id.value, "new");
    assert_eq!(p.value.values, vec![9]);
}

#[test]
fn optional_parameter_without_tensor_stays_without_one() {
    let source = param("s", tensor(vec![3], vec![1, 2, 3], 0));
    let mut target: Param<Option<Tensor<i32>>> = Param { id: ParamId { value: "t".to_string() }, value: None };
    target.load(&source.state()).unwrap();
    assert_eq!(target.id.value, "s");
    assert!(target.value.is_none());
}

#[test]
fn optional_parameter_state_round_trips() {
    let source: Param<Option<Tensor<i32>>> =
        Param { id: ParamId { value: "s".to_string() }, value: Some(tensor(vec![2], vec![4, 5], 0)) };
    let mut target: Param<Option<Tensor<i32>>> =
        Param { id: ParamId { value: "t".to_string() }, value: Some(tensor(vec![1], vec![0], 8)) };
    target.load(&source.state()).unwrap();
    let value = target.value.unwrap();
    assert_eq!(value.values, vec![4, 5]);
    assert_eq!(value.device, Device { index: 8 });
}

#[test]
fn state_of_an_absent_tensor_cannot_be_loaded() {
    let source: Param<Option<Tensor<i32>>> = Param { id: ParamId { value: "s".to_string() }, value: None };
    let mut target: Param<Option<Tensor<i32>>> =
        Param { id: ParamId { value: "t".to_string() }, value: Some(tensor(vec![1], vec![3], 0)) };
    assert!(target.load(&source.state()).is_err());
    assert_eq!(target.id.value, "s");
    assert_eq!(target.value.unwrap().values, vec![3]);
}

#[test]
fn named_states_are_found_by_name() {
    let mut named: StateNamed<i32> = StateNamed::new();
    named.register_state("a".to_string(), State::ParamId(ParamId { value: "x".to_string() }));
    named.register_state("a".to_string(), State::ParamId(ParamId { value: "y".to_string() }));
    match named.get(&"a".to_string()) {
        Some(State::ParamId(id)) => assert_eq!(id.value, "x"),
        _ => panic!("not found"),
    }
    assert!(named.get(&"b".to_string()).is_none());
    let _: &Vec<NamedState<i32>> = &named.values;
}

#[test]
fn load_with_id_errors() {
    let data: State<i32> = State::Data(Data { value: vec![], shape: vec![] });
    assert!(load_with_id(&data).is_err());
    let mut no_id: StateNamed<i32> = StateNamed::new();
    no_id.register_state("data".to_string(), State::Data(Data { value: vec![1], shape: vec![1] }));
    assert!(load_with_id(&State::StateNamed(no_id)).is_err());
    let wrapped = state_with_id(ParamId { value: "i".to_string() }, State::Data(Data { value: vec![2], shape: vec![1] }));
    let (id, inner) = load_with_id(&wrapped).unwrap();
    assert_eq!(id.value, "i");
    match inner {
        State::Data(d) => assert_eq!(d.value, vec![2]),
        _ => panic!("no data"),
    }
}

#[test]
fn optimizer_state_must_be_named() {
    let named: State<i32> = State::StateNamed(StateNamed::new());
    assert!(optim_state_named(&named).unwrap().values.is_empty());
    let data: State<i32> = State::Data(Data { value: vec![1], shape: vec![1] });
    match optim_state_named(&data) {
        Err(e) => assert_eq!(e.message, "Can't load state wrapper to fetch id and data"),
        Ok(_) => panic!("loaded"),
    }
}

#[test]
fn loading_errors_say_what_is_missing() {
    let mut p = param("w", tensor(vec![1], vec![9], 0));
    let data_only = State::Data(Data { value: vec![1], shape: vec![1] });
    assert_eq!(p.load(&data_only).unwrap_err().message, "Can't load state wrapper to fetch id and data");
    let no_data = State::StateNamed(StateNamed::new());
    assert_eq!(p.load(&no_data).unwrap_err().message, "Can't load state data");
    let mut bad_id: StateNamed<i32> = StateNamed::new();
    bad_id.register_state("data".to_string(), State::Data(Data { value: vec![1], shape: vec![1] }));
    bad_id.register_state("id".to_string(), State::Data(Data { value: vec![], shape: vec![] }));
    assert_eq!(p.load(&State::StateNamed(bad_id)).unwrap_err().message, "Can't load state id");
    let no_tensor = state_with_id(ParamId { value: "n".to_string() }, State::StateNamed(StateNamed::new()));
    assert_eq!(p.load(&no_tensor).unwrap_err().message, "Can't load tensor");
    let mut q: Param<Option<Tensor<i32>>> = Param { id: ParamId { value: "q".to_string() }, value: None };
    assert_eq!(q.load(&no_tensor).unwrap_err().message, "Can't load Option<Tensor> from NamedState");
}

#[test]
fn inner_parameter_keeps_the_tensor_with_a_new_id() {
    let p = param("w", tensor(vec![2], vec![3, 4], 1));
    let inner = p.inner(ParamId { value: "fresh".to_string() });
    assert_eq!(inner.id.value, "fresh");
    assert_eq!(inner.value.values, vec![3, 4]);
    let none: Param<Option<Tensor<i32>>> = Param { id: ParamId { value: "n".to_string() }, value: None };
    assert!(none.inner(ParamId { value: "m".to_string() }).value.is_none());
}
