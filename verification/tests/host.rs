//! Host buffers, what the backend keeps, and the bytes of plain numbers.
use infr_cpu::backend::{budget_mb, pack_key, CpuBackend, CpuBuffer, Pack, PackCache};
use infr_cpu::bytes::{first_of, read_halves, read_words, write_words};
use infr_cpu::dispatch::{linear_route, ActsKind};
use infr_cpu::dtype::DType;
use infr_cpu::graph::{Load, TensorDecl, TensorKind};

fn backend() -> CpuBackend<Vec<f32>, Vec<u8>> {
    CpuBackend::new()
}

#[test]
fn what_is_uploaded_is_downloaded() {
    let be = backend();
    assert_eq!(be.name(), "cpu");
    let mut b = be.alloc_zeroed(6);
    assert_eq!(b.read(), &[0; 6]);
    be.upload(&mut b, &[1, 2, 3]);
    assert_eq!(b.read(), &[1, 2, 3, 0, 0, 0]);
    let mut got = vec![9u8; 3];
    be.download(&b, &mut got);
    assert_eq!(got, vec![1, 2, 3]);
}

#[test]
fn buffers_have_at_least_four_bytes() {
    let be = backend();
    assert_eq!(be.alloc_zeroed(0).len_bytes(), 4);
    assert_eq!(be.alloc_zeroed(5).len_bytes(), 5);
    let b = be.alloc_uninit(2, true);
    assert!(b.is_owned());
    assert_eq!(b.read(), &[0xff; 4]);
    assert!(f32::from_ne_bytes([0xff; 4]).is_nan());
    assert_eq!(be.alloc_uninit(8, false).read(), &[0; 8]);
}

#[test]
fn mapped_weights_are_views() {
    let be = backend();
    let file = vec![5u8, 6, 7];
    let b = be.map_weight(&file);
    assert!(!b.is_owned());
    assert_eq!(b.read().as_ptr(), file.as_ptr());
    assert_eq!(b.len_bytes(), 3);
    assert!(matches!(b, CpuBuffer::Mapped(_)));
}

#[test]
fn weights_are_kept_by_address() {
    let mut be = backend();
    assert!(be.cached_weight(8).is_none());
    be.keep_weight(8, vec![1.0]);
    be.keep_weight(16, vec![2.0]);
    assert_eq!(be.cached_weight(8), Some(&vec![1.0]));
    assert_eq!(be.cached_weight(16), Some(&vec![2.0]));
    assert!(be.cached_weight(24).is_none());
}

#[test]
fn packs_stay_within_the_budget() {
    let mut c: PackCache<&str> = PackCache::new();
    assert!(c.find(1, 2).is_none());
    assert!(c.keep(1, 2, "a", 1048576, 2));
    assert!(!c.keep(3, 4, "b", 1048577, 2));
    assert!(c.find(3, 4).is_none());
    assert!(c.keep(3, 4, "c", 1048576, 2));
    assert_eq!(c.find(1, 2), Some(&"a"));
    assert_eq!(c.find(3, 4), Some(&"c"));
    assert!(c.find(4, 3).is_none());
    assert!(!c.keep(5, 6, "d", 1, 2));
    assert!(c.keep(5, 6, "d", 0, 2));
    assert_eq!((budget_mb(None), budget_mb(Some(7))), (4096, 7));
    assert_ne!(pack_key(1, 2), pack_key(2, 1));
}

#[test]
fn words_and_bytes() {
    let mut dst = vec![0u8; 8];
    assert!(write_words(&mut dst, &[0x01020304, 0xa0b0c0d0]));
    let want: Vec<u8> = [0x01020304u32, 0xa0b0c0d0].iter().flat_map(|w| w.to_ne_bytes()).collect();
    assert_eq!(dst, want);
    assert!(!write_words(&mut dst, &[1]));
    assert_eq!(dst, want);
    // A run of words has the address of a word.
    let words = vec![0x01020304u32, 0xa0b0c0d0, 7];
    let bytes: &[u8] = bytemuck::cast_slice(&words);
    assert_eq!(read_words(bytes, 3), Some(words.clone()));
    assert_eq!(read_words(bytes, 2), Some(words[..2].to_vec()));
    assert_eq!(read_words(bytes, 4), None);
    assert_eq!(read_words(&bytes[..7], 1), None);
    assert_eq!(read_words(&bytes[1..5], 1), None);
    let halves = vec![0x0102u16, 0xa0b0];
    let bytes: &[u8] = bytemuck::cast_slice(&halves);
    assert_eq!(read_halves(bytes, 2), Some(halves.clone()));
    assert_eq!(read_halves(bytes, 1), Some(halves[..1].to_vec()));
    assert_eq!(read_halves(bytes, 3), None);
    assert_eq!(read_halves(&bytes[..3], 1), None);
}

#[test]
fn tensors_load_and_go_back() {
    let t = |kind, dtype, in_place| TensorDecl { kind, dtype, numel: 6, in_place };
    let cases = [
        (t(TensorKind::Output, DType::F32, false), Load::Zeros(6), true),
        (t(TensorKind::Internal, DType::F32, false), Load::Zeros(6), false),
        (t(TensorKind::Input, DType::F32, false), Load::Bound, true),
        (t(TensorKind::Input, DType::I32, false), Load::Bound, false),
        (t(TensorKind::Input, DType::F32, true), Load::Nothing, false),
        (t(TensorKind::Weight, DType::F32, false), Load::Nothing, false),
    ];
    for (decl, load, back) in cases {
        assert_eq!(decl.load(), load);
        assert_eq!(decl.write_back(), back);
    }
}

#[test]
fn projections_are_routed_by_type_and_length() {
    assert_eq!(linear_route(DType::Q8_0, 1152), ActsKind::Blk32);
    assert_eq!(linear_route(DType::Q8_0, 1024), ActsKind::Super);
    assert_eq!(linear_route(DType::Q8_0, 40), ActsKind::Raw);
    assert_eq!(linear_route(DType::Q5_0, 320), ActsKind::Blk32);
    assert_eq!(linear_route(DType::Nvfp4, 128), ActsKind::Blk32);
    assert_eq!(linear_route(DType::Nvfp4, 96), ActsKind::Raw);
    assert_eq!(linear_route(DType::Q4K, 512), ActsKind::Super);
    assert_eq!(linear_route(DType::Q4K, 128), ActsKind::Raw);
    assert_eq!(linear_route(DType::F32, 512), ActsKind::Raw);
}

#[test]
fn the_first_words_of_a_cast() {
    assert_eq!(first_of(Some(vec![5u32, 6, 7]), 2), Some(vec![5, 6]));
    assert_eq!(first_of(Some(vec![5u16, 6]), 2), Some(vec![5, 6]));
    assert_eq!(first_of(Some(vec![5u32]), 0), Some(vec![]));
    assert_eq!(first_of(Some(vec![5u32]), 2), None);
    assert_eq!(first_of::<u32>(None, 0), None);
}

/// A run that is held keeps its pack and is not counted again; a pack that does not fit comes back.
#[test]
fn packs_are_settled_once() {
    let mut c: PackCache<&str> = PackCache::new();
    assert_eq!(c.settle(1, 2, "a", 1048576, 2), None);
    assert_eq!(c.settle(1, 2, "b", 1048576, 2), Some("b"));
    assert_eq!(c.find(1, 2), Some(&"a"));
    assert_eq!(c.settle(3, 4, "c", 1048577, 2), Some("c"));
    assert_eq!(c.find(3, 4), None);
    assert_eq!(c.settle(3, 4, "d", 1048576, 2), None);
    assert_eq!(c.settle(5, 6, "e", 1, 2), Some("e"));
    assert_eq!(c.find(3, 4), Some(&"d"));
}

/// There is a pack in every case.
#[test]
fn a_pack_is_always_handed_out() {
    let mut c: PackCache<&str> = PackCache::new();
    assert!(matches!(c.pack_for(1, 2, "a", 1048576, 1), Pack::Kept(&"a")));
    assert!(matches!(c.pack_for(1, 2, "b", 1048576, 1), Pack::Kept(&"a")));
    assert!(matches!(c.pack_for(3, 4, "c", 1, 1), Pack::Built("c")));
    assert_eq!(c.find(3, 4), None);
}
