use video_upscale::{
    is_video_extension, validate_resolution,
    apply_upscaled, find_png_footer, plan_job, prepare_write, process_frame, Error, ErrorKind,
    FilterDuplicates, Frame, JobPlan, Model, ModelFamily, OrderingBarrier, Pipeline, PngFramer,
    ProgressCounter, Raster, Upscaler, CHUNK_SIZE, MAX_FRAME_BUFFER_SIZE,
};

const FOOTER: [u8; 12] = [0x00, 0x00, 0x00, 0x00, 0x49, 0x45, 0x4E, 0x44, 0xAE, 0x42, 0x60, 0x82];

fn raster(width: u32, height: u32, seed: u8) -> Raster {
    let mut pixels = Vec::new();
    for i in 0..(width * height * 3) {
        pixels.push(seed.wrapping_mul(31).wrapping_add((i % 251) as u8));
    }
    Raster::new(width, height, pixels).unwrap()
}

fn frame(width: u32, height: u32, seed: u8) -> Frame {
    Frame::new(raster(width, height, seed), 0)
}

fn png(width: u32, height: u32, seed: u8) -> Vec<u8> {
    frame(width, height, seed).to_bytes().unwrap()
}

/// Nearest-neighbour scaling by a fixed factor, failing on one chosen input.
struct Nearest {
    scale: usize,
    fail_on_first_byte: Option<u8>,
}

impl Upscaler for Nearest {
    fn upscale(&self, input: &[u8], width: usize, height: usize) -> Result<Vec<u8>, Error> {
        if let Some(b) = self.fail_on_first_byte {
            if input.first() == Some(&b) {
                return Err(Error::with_kind(ErrorKind::Upscale, "model failed".to_owned()));
            }
        }
        let s = self.scale;
        let mut out = Vec::with_capacity(width * s * height * s * 3);
        for y in 0..height * s {
            for x in 0..width * s {
                let p = ((y / s) * width + x / s) * 3;
                out.extend_from_slice(&input[p..p + 3]);
            }
        }
        Ok(out)
    }
}

fn feed_all(filter: &mut FilterDuplicates, frames: Vec<Frame>) -> Vec<Frame> {
    let mut out = Vec::new();
    for f in frames {
        if let Some(e) = filter.filter_frame(f) {
            out.push(e);
        }
    }
    if let Some(e) = filter.finish() {
        out.push(e);
    }
    out
}

#[test]
fn footer_absent_in_short_or_plain_data() {
    assert_eq!(find_png_footer(&[]), None);
    assert_eq!(find_png_footer(&FOOTER[..11]), None);
    assert_eq!(find_png_footer(&[1u8; 100]), None);
}

#[test]
fn footer_end_is_just_past_the_first_footer() {
    let mut data = vec![7u8; 5];
    data.extend_from_slice(&FOOTER);
    data.extend_from_slice(&[9u8; 3]);
    data.extend_from_slice(&FOOTER);
    assert_eq!(find_png_footer(&data), Some(17));
    assert_eq!(find_png_footer(&FOOTER), Some(12));
}

#[test]
fn png_round_trip_keeps_the_raster() {
    let f = frame(7, 5, 3);
    let bytes = f.to_bytes().unwrap();
    assert_eq!(&bytes[..8], &[0x89, b'P', b'N', b'G', 0x0D, 0x0A, 0x1A, 0x0A]);
    assert_ne!(bytes, f.image.pixels);
    let back = Frame::from_bytes(&bytes, 4).unwrap();
    assert_eq!(back.index, 4);
    assert_eq!(back.duplicates, 0);
    assert_eq!(back.image.dimensions(), (7, 5));
    assert_eq!(back.image.pixels, f.image.pixels);
}

#[test]
fn corrupt_png_is_a_decode_framing_error() {
    let mut bytes = vec![1u8, 2, 3, 4];
    bytes.extend_from_slice(&FOOTER);
    let e = Frame::from_bytes(&bytes, 0).unwrap_err();
    assert_eq!(e.kind(), ErrorKind::DecodeFraming);

    let mut framer = PngFramer::new();
    framer.push(&bytes);
    let e = framer.next_frame().unwrap_err();
    assert_eq!(e.kind, ErrorKind::DecodeFraming);
    assert_eq!(framer.buffered_len(), 0);
}

#[test]
fn footer_straddling_a_chunk_boundary_is_found() {
    let bytes = png(4, 3, 1);
    let cut = bytes.len() - 6;
    let mut framer = PngFramer::new();
    framer.push(&bytes[..cut]);
    assert!(framer.next_frame().unwrap().is_none());
    framer.push(&bytes[cut..]);
    let f = framer.next_frame().unwrap().unwrap();
    assert_eq!(f.index, 0);
    assert_eq!(f.image.pixels, raster(4, 3, 1).pixels);
    assert!(framer.next_frame().unwrap().is_none());
    assert_eq!(framer.buffered_len(), 0);
}

#[test]
fn several_pngs_in_one_chunk_all_come_out_in_order() {
    let mut stream = png(2, 2, 1);
    stream.extend_from_slice(&png(3, 2, 2));
    stream.extend_from_slice(&png(2, 3, 3)[..10]);
    let mut framer = PngFramer::new();
    framer.push(&stream);
    let a = framer.next_frame().unwrap().unwrap();
    let b = framer.next_frame().unwrap().unwrap();
    assert!(framer.next_frame().unwrap().is_none());
    assert_eq!((a.index, a.image.dimensions()), (0, (2, 2)));
    assert_eq!((b.index, b.image.dimensions()), (1, (3, 2)));
    assert_eq!(framer.buffered_len(), 10);
    assert_eq!(framer.next_index(), 2);
}

#[test]
fn ten_mebibytes_without_footer_is_a_decode_framing_error() {
    let chunk = vec![0x55u8; CHUNK_SIZE];
    let mut framer = PngFramer::new();
    let mut fed = 0usize;
    let mut outcome = Ok(None);
    while fed < MAX_FRAME_BUFFER_SIZE + 1 {
        framer.push(&chunk);
        fed += CHUNK_SIZE;
        outcome = framer.next_frame();
        if fed <= MAX_FRAME_BUFFER_SIZE {
            assert!(matches!(outcome, Ok(None)));
        }
    }
    let e = outcome.unwrap_err();
    assert_eq!(e.kind, ErrorKind::DecodeFraming);
}

#[test]
fn buffer_at_exactly_the_bound_is_still_accepted() {
    let mut framer = PngFramer::new();
    framer.push(&vec![1u8; MAX_FRAME_BUFFER_SIZE]);
    assert!(matches!(framer.next_frame(), Ok(None)));
    framer.push(&[1u8]);
    assert_eq!(framer.next_frame().unwrap_err().kind, ErrorKind::DecodeFraming);
}

#[test]
fn duplicate_predicate_is_symmetric_and_reflexive() {
    let a = frame(4, 4, 1);
    let b = frame(4, 4, 2);
    let c = frame(4, 4, 1);
    assert!(a.is_duplicate(&a));
    assert!(a.is_duplicate(&c) && c.is_duplicate(&a));
    assert!(!a.is_duplicate(&b) && !b.is_duplicate(&a));
}

#[test]
fn frames_of_different_sizes_are_never_duplicates() {
    let a = Frame::new(Raster::new(2, 3, vec![0u8; 18]).unwrap(), 0);
    let b = Frame::new(Raster::new(3, 2, vec![0u8; 18]).unwrap(), 1);
    assert!(!a.is_duplicate(&b));
    let mut filter = FilterDuplicates::new();
    assert!(filter.filter_frame_with(a, true).is_none());
    let out = filter.filter_frame_with(b, true).unwrap();
    assert_eq!(out.duplicates, 0);
}

#[test]
fn scenario_three_identical_frames() {
    let mut filter = FilterDuplicates::new();
    let out = feed_all(&mut filter, vec![frame(4, 3, 9), frame(4, 3, 9), frame(4, 3, 9)]);
    assert_eq!(out.len(), 1);
    assert_eq!((out[0].index, out[0].duplicates), (0, 2));

    let up = Nearest { scale: 2, fail_on_first_byte: None };
    let f = process_frame(out.into_iter().next().unwrap(), &up, 2).unwrap();
    assert_eq!(f.image.dimensions(), (8, 6));
    assert_eq!(f.duplicates, 2);
    let mut barrier = OrderingBarrier::new();
    let released = barrier.publish(f);
    assert_eq!(released.len(), 1);
    let write = prepare_write(&released[0]).unwrap();
    assert_eq!(write.copies, 3);
}

#[test]
fn scenario_pattern_x_x_y_x() {
    let mut filter = FilterDuplicates::new();
    let input = vec![frame(3, 3, 1), frame(3, 3, 1), frame(3, 3, 2), frame(3, 3, 1)];
    let out = feed_all(&mut filter, input);
    let summary: Vec<(usize, usize)> = out.iter().map(|f| (f.index, f.duplicates)).collect();
    assert_eq!(summary, vec![(0, 1), (1, 0), (2, 0)]);
    assert_eq!(out[0].image.pixels, raster(3, 3, 1).pixels);
    assert_eq!(out[1].image.pixels, raster(3, 3, 2).pixels);
    assert_eq!(out[2].image.pixels, raster(3, 3, 1).pixels);

    let up = Nearest { scale: 2, fail_on_first_byte: None };
    let mut written = Vec::new();
    let mut barrier = OrderingBarrier::new();
    for f in out {
        let f = process_frame(f, &up, 2).unwrap();
        for r in barrier.publish(f) {
            let w = prepare_write(&r).unwrap();
            for _ in 0..w.copies {
                written.push(Frame::from_bytes(&w.bytes, 0).unwrap().image.pixels[0]);
            }
        }
    }
    let x = raster(3, 3, 1).pixels[0];
    let y = raster(3, 3, 2).pixels[0];
    assert_eq!(written, vec![x, x, y, x]);
}

#[test]
fn scenario_hundred_distinct_frames_out_of_order() {
    let mut filter = FilterDuplicates::new();
    let input: Vec<Frame> = (0..100u32).map(|i| frame(2, 2, i as u8)).collect();
    let out = feed_all(&mut filter, input);
    assert_eq!(out.len(), 100);
    let up = Nearest { scale: 3, fail_on_first_byte: None };
    let mut done: Vec<Frame> = out.into_iter().map(|f| process_frame(f, &up, 3).unwrap()).collect();
    // Finish in a scrambled order: odd indices descending, then even ascending.
    done.sort_by_key(|f| if f.index % 2 == 1 { (0, 100 - f.index) } else { (1, f.index) });
    let mut barrier = OrderingBarrier::new();
    let mut released = Vec::new();
    for f in done {
        assert!(barrier.accepts(f.index));
        released.extend(barrier.publish(f));
    }
    let indices: Vec<usize> = released.iter().map(|f| f.index).collect();
    assert_eq!(indices, (0..100).collect::<Vec<usize>>());
    assert!(released.iter().all(|f| f.image.dimensions() == (6, 6)));
    assert_eq!(barrier.next_index(), 100);
}

#[test]
fn barrier_holds_frames_until_their_turn() {
    let mut barrier = OrderingBarrier::new();
    let mut f2 = frame(1, 1, 2);
    f2.index = 2;
    let mut f1 = frame(1, 1, 1);
    f1.index = 1;
    assert!(barrier.publish(f2).is_empty());
    assert!(!barrier.accepts(2));
    assert!(barrier.publish(f1).is_empty());
    let released = barrier.publish(frame(1, 1, 0));
    let indices: Vec<usize> = released.iter().map(|f| f.index).collect();
    assert_eq!(indices, vec![0, 1, 2]);
    assert!(!barrier.accepts(0));
    assert!(barrier.accepts(3));
}

#[test]
fn upscaler_failure_on_one_frame_is_an_upscale_error() {
    let mut filter = FilterDuplicates::new();
    let input: Vec<Frame> = (0..10u8).map(|i| frame(2, 2, i)).collect();
    let out = feed_all(&mut filter, input);
    let poison = out[7].image.pixels[0];
    let up = Nearest { scale: 2, fail_on_first_byte: Some(poison) };
    let mut errors = Vec::new();
    let mut released = Vec::new();
    let mut barrier = OrderingBarrier::new();
    for f in out {
        match process_frame(f, &up, 2) {
            Ok(f) => released.extend(barrier.publish(f)),
            Err(e) => {
                errors.push(e);
                break;
            }
        }
    }
    assert_eq!(errors.len(), 1);
    assert_eq!(errors[0].kind, ErrorKind::Upscale);
    assert_eq!(released.len(), 7);
}

#[test]
fn wrong_sized_model_output_is_an_upscale_error() {
    let e = apply_upscaled(frame(2, 2, 0), 2, vec![0u8; 10]).unwrap_err();
    assert_eq!(e.kind, ErrorKind::Upscale);
    let f = apply_upscaled(frame(2, 2, 0), 4, vec![7u8; 8 * 8 * 3]).unwrap();
    assert_eq!(f.image.dimensions(), (8, 8));
    assert_eq!(f.image.pixels, vec![7u8; 192]);
}

#[test]
fn upscaled_dimensions_follow_the_factor() {
    for s in 1..=4u8 {
        let up = Nearest { scale: s as usize, fail_on_first_byte: None };
        let mut f = frame(5, 3, 1);
        f.index = 11;
        f.duplicates = 4;
        let out = process_frame(f, &up, s).unwrap();
        assert_eq!(out.image.dimensions(), (5 * s as u32, 3 * s as u32));
        assert_eq!((out.index, out.duplicates), (11, 4));
    }
}

#[test]
fn empty_input_ends_cleanly() {
    let mut framer = PngFramer::new();
    assert!(framer.next_frame().unwrap().is_none());
    let mut filter = FilterDuplicates::new();
    assert!(filter.finish().is_none());
    assert_eq!(filter.received(), 0);
    let barrier = OrderingBarrier::new();
    assert_eq!(barrier.next_index(), 0);
}

#[test]
fn single_frame_is_written_once() {
    let mut filter = FilterDuplicates::new();
    let out = feed_all(&mut filter, vec![frame(3, 2, 5)]);
    assert_eq!(out.len(), 1);
    let w = prepare_write(&out[0]).unwrap();
    assert_eq!(w.copies, 1);
}

#[test]
fn distinct_frames_are_each_written_once() {
    let mut filter = FilterDuplicates::new();
    let input: Vec<Frame> = (0..6u8).map(|i| frame(2, 2, i)).collect();
    let out = feed_all(&mut filter, input);
    let copies: usize = out.iter().map(|f| prepare_write(f).unwrap().copies).sum();
    assert_eq!(copies, 6);
}

#[test]
fn run_lengths_add_up_to_the_frames_fed() {
    let pattern = [1u8, 1, 1, 2, 3, 3, 1, 1, 4, 4, 4, 4, 5];
    let mut filter = FilterDuplicates::new();
    let out = feed_all(&mut filter, pattern.iter().map(|&s| frame(2, 2, s)).collect());
    let total: usize = out.iter().map(|f| f.duplicates + 1).sum();
    assert_eq!(total, pattern.len());
    let indices: Vec<usize> = out.iter().map(|f| f.index).collect();
    assert_eq!(indices, (0..out.len()).collect::<Vec<usize>>());
    let runs: Vec<usize> = out.iter().map(|f| f.duplicates).collect();
    assert_eq!(runs, vec![2, 0, 1, 1, 3, 0]);
}

#[test]
fn progress_counts_positions_and_duplicates() {
    let mut p = ProgressCounter::new(10);
    let mut f = frame(1, 1, 0);
    f.duplicates = 2;
    assert!(p.can_record(&f));
    p.record(&f);
    p.record(&frame(1, 1, 1));
    assert_eq!(p.position(), 4);
    assert_eq!(p.duplicates(), 2);
    assert_eq!(p.total(), 10);
}

#[test]
fn job_at_source_resolution_is_skipped() {
    let r = Pipeline::prepare(640, 360, Some(640), Some(360), ModelFamily::RealCugan).unwrap();
    assert!(r.is_none());
    let plan = plan_job(640, 360, Some(640), Some(360), ModelFamily::RealCugan).unwrap();
    assert_eq!(plan.scale, 1);
    assert_eq!(plan.model, None);
    assert!(plan.is_skipped());
}

#[test]
fn default_target_is_twice_the_source() {
    let plan = plan_job(640, 360, None, None, ModelFamily::RealCugan).unwrap();
    assert_eq!(plan, JobPlan { width: 1280, height: 720, scale: 2, model: Some(Model::RealCugan(2)) });
}

#[test]
fn width_alone_keeps_the_aspect_ratio() {
    let plan = plan_job(640, 360, Some(1920), None, ModelFamily::RealEsrAnime).unwrap();
    assert_eq!((plan.width, plan.height, plan.scale), (1920, 1080, 3));
    assert_eq!(plan.model, Some(Model::RealEsrAnime(3)));
    let plan = plan_job(640, 360, None, Some(1440), ModelFamily::RealCugan).unwrap();
    assert_eq!((plan.width, plan.height, plan.scale), (2560, 1440, 4));
}

#[test]
fn mismatched_aspect_ratio_is_narrowed() {
    let plan = plan_job(640, 360, Some(1000), Some(1000), ModelFamily::RealCugan).unwrap();
    assert_eq!((plan.width, plan.height, plan.scale), (1000, 563, 2));
    let plan = plan_job(640, 360, Some(2000), Some(720), ModelFamily::RealCugan).unwrap();
    assert_eq!((plan.width, plan.height, plan.scale), (1280, 720, 2));
}

#[test]
fn fixed_factor_models_always_scale_by_four() {
    let plan = plan_job(640, 360, Some(640), Some(360), ModelFamily::RealEsrgan).unwrap();
    assert_eq!((plan.scale, plan.model), (4, Some(Model::RealEsrgan)));
    let plan = plan_job(640, 360, None, None, ModelFamily::RealEsrganAnime).unwrap();
    assert_eq!((plan.scale, plan.model), (4, Some(Model::RealEsrganAnime)));
}

#[test]
fn source_without_dimensions_is_an_argument_error() {
    let e = plan_job(0, 360, None, None, ModelFamily::RealCugan).unwrap_err();
    assert_eq!(e.kind, ErrorKind::Argument);
    let e = Pipeline::prepare(640, 0, None, None, ModelFamily::RealCugan).unwrap_err();
    assert_eq!(e.kind, ErrorKind::Argument);
}

#[test]
fn model_scales_and_names() {
    assert_eq!(Model::RealCugan(3).get_scale(), 3);
    assert_eq!(Model::RealEsrAnime(2).get_scale(), 2);
    assert_eq!(Model::RealEsrgan.get_scale(), 4);
    assert_eq!(Model::RealEsrganAnime.get_scale(), 4);
    assert_eq!(ModelFamily::from_name(&"realcugan".to_owned()), Some(ModelFamily::RealCugan));
    assert_eq!(ModelFamily::from_name(&"realesrgan".to_owned()), Some(ModelFamily::RealEsrgan));
    assert_eq!(ModelFamily::from_name(&"realesrgan-anime".to_owned()), Some(ModelFamily::RealEsrganAnime));
    assert_eq!(ModelFamily::from_name(&"realesr-anime".to_owned()), Some(ModelFamily::RealEsrAnime));
    assert_eq!(ModelFamily::from_name(&"waifu2x".to_owned()), None);
}

#[test]
fn raster_with_wrong_byte_count_is_an_argument_error() {
    let e = Raster::new(2, 2, vec![0u8; 11]).unwrap_err();
    assert_eq!(e.kind, ErrorKind::Argument);
    assert!(Raster::new(2, 2, vec![0u8; 12]).is_ok());
}

#[test]
fn errors_carry_kind_and_message() {
    let e = Error::new("boom".to_owned());
    assert_eq!(e.kind(), ErrorKind::Other);
    assert_eq!(e.message(), "boom");
    let e = Error::with_kind(ErrorKind::ChildProcess, "spawn".to_owned());
    assert_eq!(e.kind, ErrorKind::ChildProcess);
}

#[test]
fn add_duplicate_and_copies() {
    let mut f = frame(1, 1, 0);
    f.add_duplicate();
    f.add_duplicate();
    assert_eq!(f.duplicates, 2);
    assert_eq!(f.copies(), 3);
}

#[test]
fn resolution_bounds_are_checked() {
    assert!(validate_resolution(None, None).is_ok());
    assert!(validate_resolution(Some(16), Some(4320)).is_ok());
    assert!(validate_resolution(Some(7680), Some(16)).is_ok());
    assert_eq!(validate_resolution(Some(15), None).unwrap_err().kind, ErrorKind::Argument);
    assert_eq!(validate_resolution(Some(7681), None).unwrap_err().kind, ErrorKind::Argument);
    assert_eq!(validate_resolution(None, Some(4321)).unwrap_err().kind, ErrorKind::Argument);
    assert_eq!(validate_resolution(None, Some(15)).unwrap_err().kind, ErrorKind::Argument);
}

#[test]
fn video_extensions_match_in_any_case() {
    for ext in ["mp4", "mov", "mkv", "webm", "avi", "flv", "MP4", "Mkv", "WebM"] {
        assert!(is_video_extension(ext), "{}", ext);
    }
    for ext in ["png", "mp3", "", "mp4x", "txt"] {
        assert!(!is_video_extension(ext), "{}", ext);
    }
}

#[test]
fn feed_frames_every_complete_png_before_the_next_read() {
    let mut stream = png(2, 2, 1);
    stream.extend_from_slice(&png(3, 2, 2));
    let third = png(2, 3, 3);
    stream.extend_from_slice(&third[..20]);
    let mut framer = PngFramer::new();
    let (frames, failure) = framer.feed(&stream);
    assert!(failure.is_none());
    let got: Vec<(usize, (u32, u32))> = frames.iter().map(|f| (f.index, f.image.dimensions())).collect();
    assert_eq!(got, vec![(0, (2, 2)), (1, (3, 2))]);
    assert_eq!(framer.buffered_len(), 20);
    let (frames, failure) = framer.feed(&third[20..]);
    assert!(failure.is_none());
    assert_eq!(frames.len(), 1);
    assert_eq!(frames[0].index, 2);
    assert_eq!(frames[0].image.pixels, raster(2, 3, 3).pixels);
    assert_eq!(framer.buffered_len(), 0);
}

#[test]
fn feed_keeps_frames_decoded_before_a_corrupt_one() {
    let mut stream = png(2, 2, 1);
    stream.extend_from_slice(&[1u8, 2, 3]);
    stream.extend_from_slice(&FOOTER);
    stream.extend_from_slice(&png(2, 2, 2));
    let mut framer = PngFramer::new();
    let (frames, failure) = framer.feed(&stream);
    assert_eq!(frames.len(), 1);
    assert_eq!(failure.unwrap().kind, ErrorKind::DecodeFraming);
    assert_eq!(framer.next_index(), 1);
    assert_eq!(framer.buffered_len(), png(2, 2, 2).len());
}

#[test]
fn feed_past_the_bound_without_footer_fails() {
    let mut framer = PngFramer::new();
    let chunk = vec![0x11u8; CHUNK_SIZE];
    let mut fed = 0usize;
    loop {
        let (frames, failure) = framer.feed(&chunk);
        fed += CHUNK_SIZE;
        assert!(frames.is_empty());
        if fed > MAX_FRAME_BUFFER_SIZE {
            assert_eq!(failure.unwrap().kind, ErrorKind::DecodeFraming);
            break;
        }
        assert!(failure.is_none());
    }
}

#[test]
fn raster_validity_is_reported() {
    assert!(raster(3, 2, 0).is_valid());
    let bad = Raster { width: 3, height: 2, pixels: vec![0u8; 17] };
    assert!(!bad.is_valid());
}
