use hearth::chat::ThinkFilter;
use hearth::compute::QuantKind;
use hearth::engine::error::ModelError;
use hearth::engine::request::{PipelineRequest, SamplerConfig};
use hearth::gguf::ggml::GgmlDType;
use hearth::llm::attention::{q8_element, q8_run, AttnDims, HeadJob};
use hearth::llm::generate::{runs_on_device, GenAction, Generation, Phase};
use hearth::llm::kvcache::{is_addressable, KVCache, KVStorage};
use hearth::llm::pool::{
    worker_cells, worker_range, Dispatch, WorkParams, WorkerAction, WorkerState, SPIN_LIMIT,
};

#[test]
fn reasoning_is_hidden() {
    let mut f = ThinkFilter::new();
    assert_eq!(f.process("Hello "), "Hello ");
    assert_eq!(f.process("a<think>secret"), "a");
    assert_eq!(f.process("more secret"), "");
    assert_eq!(f.process("end</think>shown"), "shown");
    assert_eq!(f.process("plain"), "plain");
    assert_eq!(ThinkFilter::default().process("x"), "x");
}

#[test]
fn sections_inside_one_token_are_stripped() {
    let mut f = ThinkFilter::new();
    assert_eq!(f.process("a<think>b</think>c"), "ac");
    assert_eq!(f.process("d"), "d");
    assert_eq!(f.process("<think>b</think>c<think>d</think>e<think>f"), "ce");
    assert_eq!(f.process("g</think>h<think>i"), "h");
    assert_eq!(f.process("j</think>"), "");
    assert_eq!(f.process("k"), "k");
}

#[test]
fn kinds_belong_to_formats() {
    assert_eq!(QuantKind::from_gguf_dtype(GgmlDType::Q8_0), Some(QuantKind::Q8_0));
    assert_eq!(QuantKind::from_gguf_dtype(GgmlDType::F32), Some(QuantKind::F32));
    assert_eq!(QuantKind::from_gguf_dtype(GgmlDType::BF16), None);
}

#[test]
fn errors_have_their_texts() {
    let e = |s: &str| s.to_string();
    assert_eq!(ModelError::FileNotFound(e("x")).message(), "File not found: x");
    assert_eq!(ModelError::ParseError(e("x")).message(), "Parse error: x");
    assert_eq!(ModelError::UnsupportedArchitecture(e("x")).message(), "Unsupported architecture: x");
    assert_eq!(ModelError::UnsupportedDtype(e("x")).message(), "Unsupported dtype: x");
    assert_eq!(ModelError::LoadError(e("x")).message(), "Load error: x");
    assert_eq!(ModelError::RuntimeError(e("x")).message(), "Runtime error: x");
    assert_eq!(ModelError::OutOfMemory(e("x")).message(), "Out of memory: x");
}

#[test]
fn a_language_model_takes_text_requests_only() {
    let r = PipelineRequest::TextGen {
        prompt: "hi".to_string(),
        sampler: SamplerConfig::default(),
        max_new_tokens: 3,
    };
    assert!(matches!(r.for_language_model(), Ok(("hi", _, 3))));
    let r = PipelineRequest::Embed { text: "hi".to_string() };
    assert_eq!(
        r.for_language_model().err().unwrap().message(),
        "Runtime error: Unsupported request type for LlamaModel"
    );
}

#[test]
fn a_cache_gives_back_what_was_written() {
    assert!(is_addressable(2, 3, 4));
    assert!(!is_addressable(usize::MAX, 3, 4));
    let mut c: KVCache<u32> = KVCache::new(2, 3, 4, 0);
    assert!(!c.is_q8_0());
    assert!(c.k_slice(0, 0).is_empty() && c.v_slice(0, 0).is_empty());
    c.write_kv(0, 1, &[1, 2, 3], &[4, 5, 6]);
    c.write_kv(1, 1, &[7, 8, 9], &[10, 11, 12]);
    assert_eq!(c.current_len, 2);
    assert_eq!(c.k_slice(1, 2), &[1, 2, 3, 7, 8, 9]);
    assert_eq!(c.v_slice(1, 2), &[4, 5, 6, 10, 11, 12]);
    assert_eq!(c.k_slice(0, 2), &[0, 0, 0, 0, 0, 0]);
    c.clear();
    assert_eq!(c.current_len, 0);
}

#[test]
fn shortening_keeps_the_last_positions() {
    let mut c: KVCache<u32> = KVCache::new_with_storage(1, 1, 4, KVStorage::F32, 0);
    for p in 0..4usize {
        c.write_kv(p, 0, &[p as u32 + 1], &[p as u32 + 11]);
    }
    c.truncate_left(2);
    assert_eq!(c.current_len, 2);
    assert_eq!(c.k_slice(0, 2), &[3, 4]);
    assert_eq!(c.v_slice(0, 2), &[13, 14]);
    c.truncate_left(9);
    assert_eq!(c.current_len, 2);
    c.truncate_left(0);
    assert_eq!(c.current_len, 0);
    assert!(c.k_slice(0, 0).is_empty());
    let q: KVCache<u32> = KVCache::new_with_storage(1, 32, 2, KVStorage::Q8_0, 0);
    assert_eq!((q.k_q8.len(), q.v_q8.len(), q.k.len()), (68, 68, 0));
    assert!(q.k_q8.iter().chain(&q.v_q8).all(|b| *b == 0));
}

#[test]
fn a_quantised_cache_keeps_blocks() {
    let mut c: KVCache<u32> = KVCache::new_q8_0(1, 32, 2, 0);
    assert!(c.is_q8_0());
    assert_eq!(c.memory_bytes(), 2 * 2 * 34);
    assert_eq!(c.q8_position_offset(0, 1), 34);
    let mut k = vec![0u8; 34];
    k[1] = 0x3c;
    k[2] = 5;
    k[33] = 0xff;
    c.write_kv_q8(1, 0, &k, &k);
    assert_eq!(c.current_len, 2);
    let e = c.k_slice_dequant(0, 2);
    assert_eq!(e.len(), 64);
    assert_eq!((e[0].q, e[32].q, e[63].q, e[32].d), (0, 5, -1, 0x3c00));
    assert_eq!(c.v_slice_dequant(0, 2)[32].q, 5);
    c.truncate_left(1);
    assert_eq!(c.k_slice_dequant(0, 1)[0].q, 5);
}

#[test]
fn every_row_has_one_worker() {
    for n in 0..20usize {
        for workers in 1..9usize {
            let mut seen = vec![0; n];
            for i in 0..workers {
                let (begin, end) = worker_range(n, workers, i);
                for r in begin..end {
                    seen[r] += 1;
                }
            }
            assert!(seen.iter().all(|c| *c == 1));
        }
    }
}

#[test]
fn every_cell_is_computed_once() {
    let cells = worker_cells(2, 3, 6, 2);
    assert_eq!(cells.len(), 6);
    assert_eq!((cells[0].row, cells[0].token), (3, 0));
    assert_eq!((cells[5].row, cells[5].token), (5, 1));
    assert!(worker_cells(2, 6, 3, 2).is_empty());
}

#[test]
fn small_work_is_done_in_place() {
    assert_eq!(WorkParams::par_for(0).dispatch(8), Dispatch::Nothing);
    assert_eq!(WorkParams::par_for(1).dispatch(8), Dispatch::Inline);
    assert_eq!(WorkParams::par_for(2).dispatch(8), Dispatch::Workers);
    assert_eq!(WorkParams::par_for(2).dispatch(1), Dispatch::Inline);
    assert_eq!(WorkParams::dot_rows(4, 1024, 64).tile_size, 1024);
    assert_eq!(WorkParams::dot_rows(4, 4_000_000, 64).tile_size, 1);
    assert_eq!(WorkParams::quantize(3, 33).row_bytes, 68);
}

#[test]
fn a_worker_waits_works_and_stops() {
    let mut w = WorkerState::new();
    assert_eq!(w.step(0, false), WorkerAction::Spin);
    assert_eq!(w.step(1, false), WorkerAction::Work);
    for _ in 0..SPIN_LIMIT - 1 {
        assert_eq!(w.step(1, false), WorkerAction::Spin);
    }
    assert_eq!(w.step(1, false), WorkerAction::Yield);
    assert_eq!(w.step(1, true), WorkerAction::Stop);
}

#[test]
fn query_heads_share_keys() {
    let d = AttnDims { seq_len: 2, n_q_heads: 4, n_kv_heads: 2, head_dim: 3, max_seq_len: 5 };
    assert!(d.is_valid(3));
    assert!(d.head_jobs(2, 1, 3).is_empty());
    assert!(d.head_jobs(9, 9, 3).is_empty());
    let jobs = d.head_jobs(0, 2, 3);
    assert_eq!(jobs.len(), 8);
    assert_eq!(
        jobs[7],
        HeadJob { query_start: 21, out_start: 21, kv_start: 15, kv_len: 6, attended: 2 }
    );
    let one = AttnDims { seq_len: 1, ..d };
    let jobs = one.single_jobs(4, 3);
    assert_eq!(
        jobs[1],
        HeadJob { query_start: 3, out_start: 3, kv_start: 0, kv_len: 12, attended: 4 }
    );
    assert_eq!(jobs[2].kv_start, 15);
    assert!(!AttnDims { n_kv_heads: 3, ..d }.is_valid(3));
    assert_eq!(d.q8_row(), 34);
    assert_eq!(q8_element(33), (34, 37));
    assert_eq!(q8_run(5), (34, 44));
}

#[test]
fn a_run_passes_on_its_prompt_and_its_tokens() {
    let mut g = Generation::start(vec![5, 6], 2, 100, false).ok().unwrap();
    assert_eq!(g.next(false), GenAction::WarmUp { token: 5 });
    assert_eq!(g.next(false), GenAction::PrefillBatch);
    assert_eq!(g.next(false), GenAction::Sample { shorten: false });
    assert_eq!(g.drawn(9, 2, false), GenAction::Emit { token: 9, pos: 2, on_device: false });
    assert_eq!(g.next(false), GenAction::Sample { shorten: false });
    assert_eq!(g.drawn(8, 2, false), GenAction::Emit { token: 8, pos: 3, on_device: false });
    assert_eq!(g.next(false), GenAction::Finish { tokens: 4, with_rate: true });
    assert_eq!(g.phase, Phase::Ended);
    assert_eq!(g.past, vec![6, 9, 8]);
}

#[test]
fn a_run_on_the_device_takes_token_by_token() {
    let mut g = Generation::start(vec![5, 6], 1, 100, true).ok().unwrap();
    assert_eq!(g.next(false), GenAction::Forward { token: 5, pos: 0, on_device: true });
    assert_eq!(g.next(false), GenAction::Forward { token: 6, pos: 1, on_device: true });
    assert_eq!(g.next(false), GenAction::Sample { shorten: false });
    assert_eq!(g.drawn(2, 2, false), GenAction::Finish { tokens: 2, with_rate: true });
}

#[test]
fn a_run_can_be_cancelled() {
    let mut g = Generation::start(vec![5], 3, 100, true).ok().unwrap();
    assert_eq!(g.next(true), GenAction::Stop);
    let mut g = Generation::start(vec![5], 3, 1, true).ok().unwrap();
    g.next(false);
    assert_eq!(g.next(false), GenAction::Sample { shorten: true });
    g.drawn(7, 2, false);
    assert_eq!(g.next(true), GenAction::Finish { tokens: 2, with_rate: false });
    let mut g = Generation::start(vec![5], 3, 100, true).ok().unwrap();
    g.next(false);
    g.next(false);
    assert_eq!(g.drawn(7, 2, true), GenAction::Finish { tokens: 1, with_rate: true });
}

#[test]
fn an_empty_prompt_is_refused() {
    assert_eq!(
        Generation::start(vec![], 3, 100, false).err().unwrap(),
        "Empty prompt after tokenization"
    );
    assert!(runs_on_device(4, 4, true, true));
    assert!(!runs_on_device(3, 4, true, true));
}
