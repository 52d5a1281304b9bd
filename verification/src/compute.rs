//! A compute server that keeps its resources as bytes in memory, the kernels it
//! runs, and the benchmark that autotuning runs on it.
use vstd::prelude::*;

verus! {

/// A resource of a server, by its position in the server's memory.
#[derive(Clone, Copy, Debug, PartialEq, Eq, Structural)]
pub struct Handle {
    pub id: usize,
}

/// The bytes of each resource.
pub open spec fn bytes_of(resources: Seq<Vec<u8>>) -> Seq<Seq<u8>> {
    resources.map_values(|v: Vec<u8>| v@)
}

/// A computation over resources. `resources[k]` is the resource of the k-th
/// handle given to the server.
pub trait DummyKernel {
    /// The resources on which the kernel may run.
    spec fn compute_req(&self, resources: Seq<Seq<u8>>) -> bool;

    /// The resources after the kernel ran.
    spec fn compute_spec(&self, resources: Seq<Seq<u8>>) -> Seq<Seq<u8>>;

    fn compute(&self, resources: &mut Vec<Vec<u8>>)
        requires
            self.compute_req(bytes_of(old(resources)@)),
        ensures
            final(resources)@.len() == old(resources)@.len(),
            bytes_of(final(resources)@) == self.compute_spec(bytes_of(old(resources)@)),
    ;
}

/// Adds the first resource to the second, element by element, into the third;
/// the third resource has as many bytes as the first.
pub struct DummyElementwiseAddition;

/// The sums of the first `lhs.len()` bytes, the rest of `out` unchanged.
pub open spec fn elementwise_sum(lhs: Seq<u8>, rhs: Seq<u8>, out: Seq<u8>) -> Seq<u8> {
    Seq::new(
        out.len(),
        |i: int|
            if i < lhs.len() {
                (lhs[i] + rhs[i]) as u8
            } else {
                out[i]
            },
    )
}

impl DummyKernel for DummyElementwiseAddition {
    open spec fn compute_req(&self, resources: Seq<Seq<u8>>) -> bool {
        &&& resources.len() >= 3
        &&& resources[0].len() <= resources[1].len()
        &&& resources[0].len() <= resources[2].len()
        &&& forall|i: int|
            0 <= i < resources[0].len() ==> #[trigger] resources[0][i] + resources[1][i] <= u8::MAX
    }

    open spec fn compute_spec(&self, resources: Seq<Seq<u8>>) -> Seq<Seq<u8>> {
        resources.update(2, elementwise_sum(resources[0], resources[1], resources[2]))
    }

    fn compute(&self, resources: &mut Vec<Vec<u8>>) {
        let ghost before = bytes_of(resources@);
        let size = resources[0].len();
        let mut out: Vec<u8> = Vec::new();
        let mut i: usize = 0;
        let out_len = resources[2].len();
        while i < out_len
            invariant
                i <= out_len,
                before == bytes_of(resources@),
                out_len == before[2].len(),
                size == before[0].len(),
                self.compute_req(before),
                out@ == elementwise_sum(before[0], before[1], before[2]).take(i as int),
            decreases out_len - i,
        {
            if i < size {
                let v = resources[0][i] + resources[1][i];
                out.push(v);
            } else {
                let v = resources[2][i];
                out.push(v);
            }
            i = i + 1;
            assert(out@ =~= elementwise_sum(before[0], before[1], before[2]).take(i as int));
        }
        resources.set(2, out);
        proof {
            assert(elementwise_sum(before[0], before[1], before[2]).take(out_len as int)
                =~= elementwise_sum(before[0], before[1], before[2]));
            assert(bytes_of(resources@) =~= self.compute_spec(before));
        }
    }
}

/// The resources in memory, each with its bytes.
pub struct DummyServer {
    memory: Vec<Vec<u8>>,
}

/// The memory after `results[k]` was written to the resource of `handles[k]`.
pub open spec fn written(
    memory: Seq<Seq<u8>>,
    handles: Seq<Handle>,
    results: Seq<Seq<u8>>,
) -> Seq<Seq<u8>>
    decreases handles.len(),
{
    if handles.len() == 0 {
        memory
    } else {
        written(memory, handles.drop_last(), results).update(
            handles.last().id as int,
            results[handles.len() - 1],
        )
    }
}

/// The resources of the given handles, in order.
pub open spec fn gathered(memory: Seq<Seq<u8>>, handles: Seq<Handle>) -> Seq<Seq<u8>> {
    Seq::new(handles.len(), |k: int| memory[handles[k].id as int])
}

/// Handles of existing resources, each given once.
pub open spec fn valid_handles(memory: Seq<Seq<u8>>, handles: Seq<Handle>) -> bool {
    &&& forall|k: int| 0 <= k < handles.len() ==> (#[trigger] handles[k]).id < memory.len()
    &&& forall|k: int, j: int|
        0 <= k < j < handles.len() ==> #[trigger] handles[k].id != #[trigger] handles[j].id
}

fn copy_bytes(v: &Vec<u8>) -> (r: Vec<u8>)
    ensures
        r@ == v@,
{
    let mut r: Vec<u8> = Vec::new();
    let mut k: usize = 0;
    while k < v.len()
        invariant
            k <= v@.len(),
            r@ == v@.take(k as int),
        decreases v@.len() - k,
    {
        r.push(v[k]);
        k = k + 1;
        assert(r@ =~= v@.take(k as int));
    }
    assert(v@.take(v@.len() as int) =~= v@);
    r
}

impl View for DummyServer {
    type V = Seq<Seq<u8>>;

    closed spec fn view(&self) -> Seq<Seq<u8>> {
        bytes_of(self.memory@)
    }
}

impl DummyServer {
    /// A server without any resource.
    pub fn new() -> (r: Self)
        ensures
            r@ == Seq::<Seq<u8>>::empty(),
    {
        let r = DummyServer { memory: Vec::new() };
        assert(r@ =~= Seq::<Seq<u8>>::empty());
        r
    }

    /// The bytes of a resource.
    pub fn read(&self, handle: &Handle) -> (r: Vec<u8>)
        requires
            handle.id < self@.len(),
        ensures
            r@ == self@[handle.id as int],
    {
        copy_bytes(&self.memory[handle.id])
    }

    /// A new resource holding `data`.
    pub fn create(&mut self, data: &[u8]) -> (r: Handle)
        ensures
            final(self)@ == old(self)@.push(data@),
            r.id == old(self)@.len(),
    {
        let mut bytes: Vec<u8> = Vec::new();
        let mut i: usize = 0;
        while i < data.len()
            invariant
                i <= data@.len(),
                bytes@ == data@.take(i as int),
            decreases data@.len() - i,
        {
            bytes.push(data[i]);
            i = i + 1;
            assert(bytes@ =~= data@.take(i as int));
        }
        assert(data@.take(data@.len() as int) =~= data@);
        let handle = Handle { id: self.memory.len() };
        self.memory.push(bytes);
        proof {
            assert(self@ =~= old(self)@.push(data@));
        }
        handle
    }

    /// A new resource of `size` bytes, all zero.
    pub fn empty(&mut self, size: usize) -> (r: Handle)
        ensures
            final(self)@ == old(self)@.push(Seq::new(size as nat, |i: int| 0u8)),
            r.id == old(self)@.len(),
    {
        let mut bytes: Vec<u8> = Vec::new();
        let mut i: usize = 0;
        while i < size
            invariant
                i <= size,
                bytes@ == Seq::new(i as nat, |k: int| 0u8),
            decreases size - i,
        {
            bytes.push(0);
            i = i + 1;
            assert(bytes@ =~= Seq::new(i as nat, |k: int| 0u8));
        }
        let handle = Handle { id: self.memory.len() };
        self.memory.push(bytes);
        proof {
            assert(self@ =~= old(self)@.push(Seq::new(size as nat, |i: int| 0u8)));
        }
        handle
    }

    /// Run `kernel` on the resources of `handles`, in that order, and write
    /// back what it leaves in them.
    pub fn execute<K: DummyKernel>(&mut self, kernel: &K, handles: &Vec<Handle>)
        requires
            valid_handles(old(self)@, handles@),
            kernel.compute_req(gathered(old(self)@, handles@)),
        ensures
            final(self)@ == written(
                old(self)@,
                handles@,
                kernel.compute_spec(gathered(old(self)@, handles@)),
            ),
    {
        let mut resources: Vec<Vec<u8>> = Vec::new();
        let mut k: usize = 0;
        while k < handles.len()
            invariant
                k <= handles@.len(),
                valid_handles(self@, handles@),
                resources@.len() == k,
                bytes_of(resources@) == gathered(self@, handles@).take(k as int),
            decreases handles@.len() - k,
        {
            let bytes = self.read(&handles[k]);
            resources.push(bytes);
            proof {
                let g = gathered(self@, handles@);
                assert forall|i: int| 0 <= i < k + 1 implies bytes_of(resources@)[i] == g.take(
                    k + 1,
                )[i] by {}
                assert(bytes_of(resources@) =~= g.take(k + 1));
            }
            k = k + 1;
        }
        assert(gathered(self@, handles@).take(k as int) =~= gathered(self@, handles@));
        let ghost before = self@;
        kernel.compute(&mut resources);
        let ghost results = bytes_of(resources@);
        let mut k: usize = 0;
        while k < handles.len()
            invariant
                k <= handles@.len(),
                valid_handles(before, handles@),
                self@.len() == before.len(),
                bytes_of(resources@) == results,
                resources@.len() == handles@.len(),
                self@ == written(before, handles@.take(k as int), results),
            decreases handles@.len() - k,
        {
            let bytes = copy_bytes(&resources[k]);
            self.memory.set(handles[k].id, bytes);
            proof {
                assert(handles@.take(k + 1).drop_last() =~= handles@.take(k as int));
                assert(self@ =~= written(before, handles@.take(k + 1), results));
            }
            k = k + 1;
        }
        assert(handles@.take(handles@.len() as int) =~= handles@);
    }

    /// Wait for the pending work; this server runs everything at once.
    pub fn sync(&self) {
    }
}

/// The device of the in-memory server.
#[derive(Clone, Copy, Debug, PartialEq, Eq, Structural)]
pub struct DummyDevice;

/// The bytes read from a resource.
pub struct Reader {
    data: Vec<u8>,
}

impl View for Reader {
    type V = Seq<u8>;

    closed spec fn view(&self) -> Seq<u8> {
        self.data@
    }
}

impl Reader {
    /// The bytes read.
    pub fn read(self) -> (r: Vec<u8>)
        ensures
            r@ == self@,
    {
        self.data
    }
}

/// The client of an in-memory server.
pub struct ComputeClient {
    server: DummyServer,
}

impl View for ComputeClient {
    type V = Seq<Seq<u8>>;

    closed spec fn view(&self) -> Seq<Seq<u8>> {
        self.server@
    }
}

/// A client of a new in-memory server for the device.
pub fn client(device: &DummyDevice) -> (r: ComputeClient)
    ensures
        r@ == Seq::<Seq<u8>>::empty(),
{
    ComputeClient { server: DummyServer::new() }
}

impl ComputeClient {
    /// A new resource holding `data`.
    pub fn create(&mut self, data: &[u8]) -> (r: Handle)
        ensures
            final(self)@ == old(self)@.push(data@),
            r.id == old(self)@.len(),
    {
        self.server.create(data)
    }

    /// A new resource of `size` bytes, all zero.
    pub fn empty(&mut self, size: usize) -> (r: Handle)
        ensures
            final(self)@ == old(self)@.push(Seq::new(size as nat, |i: int| 0u8)),
            r.id == old(self)@.len(),
    {
        self.server.empty(size)
    }

    /// The bytes of a resource.
    pub fn read(&self, handle: &Handle) -> (r: Reader)
        requires
            handle.id < self@.len(),
        ensures
            r@ == self@[handle.id as int],
    {
        Reader { data: self.server.read(handle) }
    }

    /// Run `kernel` on the resources of `handles`.
    pub fn execute<K: DummyKernel>(&mut self, kernel: &K, handles: &Vec<Handle>)
        requires
            valid_handles(old(self)@, handles@),
            kernel.compute_req(gathered(old(self)@, handles@)),
        ensures
            final(self)@ == written(
                old(self)@,
                handles@,
                kernel.compute_spec(gathered(old(self)@, handles@)),
            ),
    {
        self.server.execute(kernel, handles);
    }
}

/// A benchmark that runs an operation on server handles.
pub struct TuneBenchmark<K> {
    operation: K,
    handles: Vec<Handle>,
    server: DummyServer,
}

impl<K: DummyKernel> TuneBenchmark<K> {
    pub fn new(operation: K, handles: Vec<Handle>, server: DummyServer) -> (r: Self)
        ensures
            r.operation() == operation,
            r.handles()@ == handles@,
            r.server()@ == server@,
    {
        TuneBenchmark { operation, handles, server }
    }

    pub closed spec fn operation(&self) -> K {
        self.operation
    }

    pub closed spec fn handles(&self) -> Vec<Handle> {
        self.handles
    }

    pub closed spec fn server(&self) -> DummyServer {
        self.server
    }

    /// Nothing is prepared.
    pub fn prepare(&self) {
    }

    /// One sample is enough.
    pub fn num_samples(&self) -> (r: usize)
        ensures
            r == 1,
    {
        1
    }

    /// Run the operation on the handles.
    pub fn execute(&mut self)
        requires
            valid_handles(old(self).server()@, old(self).handles()@),
            old(self).operation().compute_req(
                gathered(old(self).server()@, old(self).handles()@),
            ),
        ensures
            final(self).server()@ == written(
                old(self).server()@,
                old(self).handles()@,
                old(self).operation().compute_spec(
                    gathered(old(self).server()@, old(self).handles()@),
                ),
            ),
            final(self).handles() == old(self).handles(),
            final(self).operation() == old(self).operation(),
    {
        self.server.execute(&self.operation, &self.handles);
    }

    /// The server, once the benchmark is done.
    pub fn into_server(self) -> (r: DummyServer)
        ensures
            r@ == self.server()@,
    {
        self.server
    }

    /// The name of the benchmark.
    pub fn name(&self) -> (r: String)
        ensures
            r@ == "Autotune"@,
    {
        "Autotune".to_owned()
    }

    /// Wait for the server; as the server runs everything at once, the
    /// benchmark, its server's resources included, is left as it was.
    pub fn sync(&mut self)
        ensures
            final(self).server()@ == old(self).server()@,
            final(self).handles() == old(self).handles(),
            final(self).operation() == old(self).operation(),
    {
        self.server.sync();
    }
}

/// Executing a kernel on handles writes the k-th result to the resource of
/// the k-th handle (the results beyond the handles go nowhere), keeps the
/// number of resources, and leaves every resource that no handle names as it
/// was.
pub proof fn law_written(
    memory: Seq<Seq<u8>>,
    handles: Seq<Handle>,
    results: Seq<Seq<u8>>,
)
    requires
        valid_handles(memory, handles),
        results.len() >= handles.len(),
    ensures
        written(memory, handles, results).len() == memory.len(),
        forall|k: int|
            0 <= k < handles.len() ==> #[trigger] written(memory, handles, results)[handles[k].id as int]
                == results[k],
        forall|i: int|
            0 <= i < memory.len() && (forall|k: int| 0 <= k < handles.len() ==> handles[k].id != i)
                ==> #[trigger] written(memory, handles, results)[i] == memory[i],
    decreases handles.len(),
{
    if handles.len() > 0 {
        let prev = handles.drop_last();
        law_written(memory, prev, results);
        let last = handles.len() - 1;
        assert forall|k: int| 0 <= k < handles.len() implies #[trigger] written(
            memory,
            handles,
            results,
        )[handles[k].id as int] == results[k] by {
            if k < last {
                assert(prev[k] == handles[k]);
            }
        }
    }
}

} // verus!
