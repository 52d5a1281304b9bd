use burn::tensor::Device;
use burn::wgpu::{
    binary_elemwise_info, binary_elemwise_inplace_info, binary_elemwise_options,
    binary_elemwise_shape, build_info, contiguous_strides, Dx11, Dx12, DynamicKernelGenerator, DynamicKernelSettings,
    GraphicsAPI, GraphicsBackend, KernelSettings, Metal, OpenGL, SourceTemplate, SourceTemplateView,
    StaticKernelGenerator, Vulkan, WebGPU, WgpuAutotuneKey, WgpuTensor, WorkGroupSize,
};
use core::any::TypeId;

struct Add;

impl StaticKernelGenerator for Add {
    fn template() -> SourceTemplateView {
        panic!("the template is only described in specifications")
    }

    fn source() -> SourceTemplate {
        SourceTemplate::new("output[id] = lhs[id] + rhs[id];".to_string())
    }
}

#[test]
fn test_kernel_type_id() {
    let type_id_1 = TypeId::of::<KernelSettings<Add, f32, i32, 2, 3, 4>>();
    let type_id_2 = TypeId::of::<KernelSettings<Add, f32, i32, 2, 3, 5>>();
    let type_id_3 = TypeId::of::<KernelSettings<Add, f32, i32, 2, 3, 4>>();

    assert_ne!(type_id_1, type_id_2);
    assert_eq!(type_id_1, type_id_3);
}

#[test]
fn kernel_settings_register_sizes_and_types() {
    let t = KernelSettings::<Add, i32, u32, 16, 8, 1>::source();
    assert_eq!(t.source, "output[id] = lhs[id] + rhs[id];");
    assert_eq!(t.names, vec!["workgroup_size_x", "workgroup_size_y", "workgroup_size_z", "elem", "int"]);
    assert_eq!(t.values, vec!["16", "8", "1", "i32", "u32"]);
}

#[test]
fn dynamic_kernel_settings_register_sizes_and_types() {
    let settings = DynamicKernelSettings::<Add, u32, i32>::new(32, 2, 3);
    assert_eq!(settings.workgroup_x_size, 32);
    let t = settings.source();
    assert_eq!(t.names.len(), 5);
    assert_eq!(t.values, vec!["32", "2", "3", "u32", "i32"]);
}

#[test]
fn template_registration_keeps_order() {
    let t = SourceTemplate::new("src".to_string())
        .register("a".to_string(), "1".to_string())
        .register("b".to_string(), "2".to_string());
    assert_eq!(t.names, vec!["a", "b"]);
    assert_eq!(t.values, vec!["1", "2"]);
    assert_eq!(t.source, "src");
}

fn tensor(shape: Vec<usize>, strides: Vec<usize>) -> WgpuTensor {
    WgpuTensor { shape, strides, device: Device { index: 0 } }
}

#[test]
fn build_info_lists_rank_strides_then_shapes() {
    let lhs = tensor(vec![2, 3], vec![3, 1]);
    let rhs = tensor(vec![1, 3], vec![3, 1]);
    let info = build_info(&vec![&lhs, &rhs], 2);
    assert_eq!(info, vec![2u32, 3, 1, 3, 1, 2, 3, 1, 3]);
}

#[test]
fn build_info_of_no_tensor_is_the_rank() {
    assert_eq!(build_info(&vec![], 4), vec![4u32]);
}

#[test]
fn binary_elemwise_metadata() {
    let lhs = tensor(vec![4, 1], vec![1, 1]);
    let rhs = tensor(vec![1, 5], vec![5, 1]);
    assert_eq!(binary_elemwise_shape(&lhs, &rhs), vec![4usize, 5]);
    assert_eq!(binary_elemwise_info(&lhs, &rhs), vec![2u32, 1, 1, 5, 1, 4, 1, 1, 5]);
    assert_eq!(binary_elemwise_inplace_info(&lhs, &rhs), vec![2u32, 5, 1, 1, 5]);
}

#[test]
fn binary_elemwise_render_options() {
    let options = binary_elemwise_options::<i32>();
    assert_eq!(options.workgroup_size, WorkGroupSize { x: 256, y: 1, z: 1 });
    assert_eq!(options.elem, Some("i32".to_string()));
    assert_eq!(options.int, None);
}

#[test]
fn graphics_apis() {
    assert_eq!((Vulkan::id(), Vulkan::backend()), (1, GraphicsBackend::Vulkan));
    assert_eq!((Metal::id(), Metal::backend()), (2, GraphicsBackend::Metal));
    assert_eq!((OpenGL::id(), OpenGL::backend()), (3, GraphicsBackend::Gl));
    assert_eq!((Dx11::id(), Dx11::backend()), (4, GraphicsBackend::Dx11));
    assert_eq!((Dx12::id(), Dx12::backend()), (5, GraphicsBackend::Dx12));
    assert_eq!((WebGPU::id(), WebGPU::backend()), (6, GraphicsBackend::BrowserWebGpu));
}

#[test]
fn autotune_keys_compare_by_variant_and_value() {
    let a: WgpuAutotuneKey<u32, u32> = WgpuAutotuneKey::Matmul(3);
    assert_eq!(a.clone(), WgpuAutotuneKey::Matmul(3));
    assert_ne!(a, WgpuAutotuneKey::Reduce(3));
}

#[test]
fn sizes_are_written_in_decimal() {
    assert_eq!(burn::wgpu::decimal_string(0), "0");
    assert_eq!(burn::wgpu::decimal_string(7), "7");
    assert_eq!(burn::wgpu::decimal_string(10), "10");
    assert_eq!(burn::wgpu::decimal_string(256), "256");
    assert_eq!(burn::wgpu::decimal_string(usize::MAX), usize::MAX.to_string());
}

#[test]
fn contiguous_strides_are_the_sizes_after_each_dimension() {
    assert_eq!(contiguous_strides(&vec![2, 3, 4]), Some(vec![12, 4, 1]));
    assert_eq!(contiguous_strides(&vec![5]), Some(vec![1]));
    assert_eq!(contiguous_strides(&vec![]), Some(vec![]));
    assert_eq!(contiguous_strides(&vec![1, usize::MAX, 2]), None);
}
