use burn::compute::{client, DummyDevice, DummyElementwiseAddition, DummyServer, Handle, TuneBenchmark};

#[test]
fn created_resource_is_the_same_when_read() {
    let mut client = client(&DummyDevice);
    let resource = Vec::from([0, 1, 2]);
    let resource_description = client.create(&resource);

    let obtained_resource = client.read(&resource_description);

    assert_eq!(resource, obtained_resource.read())
}

#[test]
fn empty_allocates_memory() {
    let mut client = client(&DummyDevice);
    let size = 4;
    let resource_description = client.empty(size);
    let empty_resource = client.read(&resource_description);

    assert_eq!(empty_resource.read().len(), 4);
}

#[test]
fn execute_elementwise_addition() {
    let mut client = client(&DummyDevice);
    let lhs = client.create(&[0, 1, 2]);
    let rhs = client.create(&[4, 4, 4]);
    let out = client.empty(3);

    client.execute(&DummyElementwiseAddition, &vec![lhs, rhs, out]);

    let obtained_resource = client.read(&out);

    assert_eq!(obtained_resource.read(), Vec::from([4, 5, 6]))
}

#[test]
fn empty_resource_holds_zeros() {
    let mut client = client(&DummyDevice);
    let handle = client.empty(3);
    assert_eq!(client.read(&handle).read(), vec![0u8, 0, 0]);
}

#[test]
fn handles_are_given_in_creation_order() {
    let mut client = client(&DummyDevice);
    let a = client.create(&[7]);
    let b = client.empty(2);
    let c = client.create(&[1, 2]);
    assert_eq!((a.id, b.id, c.id), (0, 1, 2));
    assert_eq!(client.read(&a).read(), vec![7u8]);
    assert_eq!(client.read(&c).read(), vec![1u8, 2]);
}

#[test]
fn execute_leaves_the_inputs_unchanged() {
    let mut client = client(&DummyDevice);
    let lhs = client.create(&[10, 20]);
    let rhs = client.create(&[1, 2]);
    let out = client.create(&[9, 9]);
    let other = client.create(&[5]);
    client.execute(&DummyElementwiseAddition, &vec![lhs, rhs, out]);
    assert_eq!(client.read(&lhs).read(), vec![10u8, 20]);
    assert_eq!(client.read(&rhs).read(), vec![1u8, 2]);
    assert_eq!(client.read(&out).read(), vec![11u8, 22]);
    assert_eq!(client.read(&other).read(), vec![5u8]);
}

#[test]
fn addition_reads_in_the_handles_order() {
    let mut client = client(&DummyDevice);
    let out = client.empty(2);
    let lhs = client.create(&[3, 4]);
    let rhs = client.create(&[100, 200]);
    client.execute(&DummyElementwiseAddition, &vec![lhs, rhs, out]);
    assert_eq!(client.read(&out).read(), vec![103u8, 204]);
}

#[test]
fn a_fresh_client_has_no_resource_of_another() {
    let mut first = client(&DummyDevice);
    let _ = first.create(&[1, 2, 3]);
    let mut second = client(&DummyDevice);
    let h = second.create(&[9]);
    assert_eq!(h.id, 0);
}

#[test]
fn server_reads_back_what_it_created() {
    let mut server = DummyServer::new();
    let h = server.create(&[1, 2, 3]);
    assert_eq!(server.read(&h), vec![1u8, 2, 3]);
    server.sync();
}

#[test]
fn tune_benchmark_runs_its_operation_once() {
    let mut server = DummyServer::new();
    let lhs = server.create(&[1, 2]);
    let rhs = server.create(&[3, 4]);
    let out = server.empty(2);
    let mut bench = TuneBenchmark::new(DummyElementwiseAddition, vec![lhs, rhs, out], server);
    bench.prepare();
    assert_eq!(bench.num_samples(), 1);
    assert_eq!(bench.name(), "Autotune".to_string());
    bench.execute();
    bench.sync();
    let server = bench.into_server();
    assert_eq!(server.read(&out), vec![4u8, 6]);
    assert_eq!(server.read(&Handle { id: 0 }), vec![1u8, 2]);
}
