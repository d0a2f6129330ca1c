//! What a listing's entries are taken for.

use viture_v2::library::{
    calibration_sample, contains_fold, entry, eq_fold, fold, infer, infer_batch, infer_batch_using,
    infer_chunk, infer_chunked, infer_serial, over_under_markers, packing_for,
    packing_for_stereo_mode, panorama_markers, plan, projection_for, readable_count, settle,
    side_by_side_markers, trim, vr180_markers, Format, Marker, Plan, Signature, Verdict, ANAGLYPH,
    CHUNK, EQUIRECT_180, EQUIRECT_360, FLAT, LOWER_RUNG, META_WORDS, MONO, OVER_UNDER,
    ROW_INTERLEAVED, SIDE_BY_SIDE, UPPER_RUNG,
};

fn all_markers() -> Vec<Marker> {
    let mut all = Vec::new();
    all.extend_from_slice(&over_under_markers());
    all.extend_from_slice(&side_by_side_markers());
    all.extend_from_slice(&vr180_markers());
    all.extend_from_slice(&panorama_markers());
    all
}

fn guess(name: &str, width: u32, height: u32) -> Format {
    infer(name.as_bytes(), b"", width, height)
}

#[test]
fn a_signature_never_rejects_a_substring_that_is_there() {
    // The one property the filter must have. Everything else it does is an
    // optimisation; this is correctness.
    let names = [
        "Holiday_TB.mkv",
        "climb_vr180_sbs.mp4",
        "Arrival (2016)",
        "insta360 x4 clip",
        "SIDE-BY-SIDE.MP4",
        "",
    ];
    for marker in all_markers() {
        for name in names {
            let signature = Signature::of(name.as_bytes());
            if contains_fold(name.as_bytes(), marker.needle) {
                assert!(
                    signature.may_contain(marker.signature),
                    "{name:?} contains {:?} but the signature denied it",
                    std::str::from_utf8(marker.needle).unwrap(),
                );
            }
        }
    }
}

#[test]
fn the_signature_actually_rejects_most_markers() {
    // If it rejected nothing it would be pure overhead. An ordinary film
    // name shares few letters with `sidebyside` or `equirect`.
    let name = "Arrival (2016)";
    let signature = Signature::of(name.as_bytes());
    let all = all_markers();
    let survivors = all
        .iter()
        .filter(|m| signature.may_contain(m.signature))
        .count();
    assert!(
        survivors * 4 < all.len(),
        "{survivors} of {} markers survived the filter",
        all.len(),
    );
}

#[test]
fn folding_happens_without_a_second_copy_of_the_name() {
    assert!(contains_fold(b"Holiday_TB.mkv", b"_tb"));
    assert!(contains_fold(b"HOLIDAY_tb.MKV", b"_tb"));
    assert!(!contains_fold(b"Holiday.mkv", b"_tb"));
    // A needle longer than the haystack, and an empty one.
    assert!(!contains_fold(b"ab", b"abc"));
    assert!(!contains_fold(b"abc", b""));
    // A near miss that shares its first byte with the needle at every
    // position, which is where a first-byte scan alone would go wrong.
    assert!(!contains_fold(b"____", b"_tb"));
}

#[test]
fn a_name_that_states_the_packing_outranks_the_frame_shape() {
    let format = guess("Holiday_TB.mkv", 3840, 1920);
    assert_eq!(format.packing, OVER_UNDER);
    // 3840x1920 is 2:1, which would otherwise read as a monoscopic sphere.
    assert_eq!(format.verdict, Verdict::Guessed);
}

#[test]
fn an_ordinary_film_is_a_screen_and_not_a_sphere() {
    for (name, w, h) in [
        ("Arrival (2016)", 1920, 1080),
        ("Dune", 3840, 1608),
        ("Casablanca", 1440, 1080),
    ] {
        let format = guess(name, w, h);
        assert_eq!(format.projection, FLAT, "{name}");
        assert_eq!(format.packing, MONO, "{name}");
    }
}

#[test]
fn a_stereo_mode_the_catalogue_states_outranks_the_name() {
    let format = infer(b"Holiday_TB.mkv", b"left_right", 3840, 1920);
    assert_eq!(format.packing, SIDE_BY_SIDE);
    assert_eq!(format.verdict, Verdict::Catalogued);
}

#[test]
fn an_empty_stereo_mode_is_an_absence_and_not_a_reading() {
    // A scanner writes the same empty string whether it looked and saw a
    // flat file or never looked at all. Reading it as monoscopic would
    // override exactly the names somebody took care to mark.
    for mode in ["", "   "] {
        let format = infer(b"Holiday_TB.mkv", mode.as_bytes(), 3840, 1920);
        assert_eq!(format.packing, OVER_UNDER, "mode {mode:?}");
        assert_eq!(format.verdict, Verdict::Guessed, "mode {mode:?}");
    }
    // An explicit `mono`, by contrast, is a reading and it counts.
    let format = infer(b"Holiday_TB.mkv", b"mono", 3840, 1920);
    assert_eq!(format.packing, MONO);
    assert_eq!(format.verdict, Verdict::Catalogued);
}

#[test]
fn the_reversed_variants_are_a_swap_and_not_a_packing() {
    for (mode, packing) in [
        ("right_left", SIDE_BY_SIDE),
        ("bottom_top", OVER_UNDER),
        ("row_interleaved_rl", ROW_INTERLEAVED),
    ] {
        let format = infer(b"Film", mode.as_bytes(), 1920, 1080);
        assert_eq!(format.packing, packing, "{mode}");
        assert!(format.swap_eyes, "{mode} should swap the eyes");
    }
    for (mode, packing) in [
        ("left_right", SIDE_BY_SIDE),
        ("top_bottom", OVER_UNDER),
        ("row_interleaved_lr", ROW_INTERLEAVED),
    ] {
        let format = infer(b"Film", mode.as_bytes(), 1920, 1080);
        assert_eq!(format.packing, packing, "{mode}");
        assert!(!format.swap_eyes, "{mode} should not swap the eyes");
    }
}

#[test]
fn each_anaglyph_mode_carries_its_own_pair_of_colours() {
    for (mode, pair) in [
        ("anaglyph_cyan_red", 0),
        ("anaglyph_green_magenta", 1),
        ("anaglyph_yellow_blue", 2),
    ] {
        let format = infer(b"Documentary", mode.as_bytes(), 1920, 1080);
        assert_eq!(format.packing, ANAGLYPH, "{mode}");
        assert_eq!(format.anaglyph_pair, pair, "{mode}");
        assert_eq!(format.verdict, Verdict::Catalogued, "{mode}");
    }
}

#[test]
fn the_modes_nothing_here_can_split_fall_through_to_inference() {
    // Checkerboard and column-interleaved are real, and pretending to
    // handle them would show a chequerboard of two eyes to both.
    for mode in ["checkerboard_lr", "col_interleaved_lr", "block_lr"] {
        let format = infer(b"Documentary", mode.as_bytes(), 3840, 1920);
        assert_eq!(format.verdict, Verdict::Guessed, "{mode}");
        assert_eq!(format.packing, MONO, "{mode}");
    }
}

#[test]
fn a_row_interleaved_frame_is_half_height_per_eye() {
    // Interleaving halves the height per eye exactly as stacking does, so a
    // 3840x3840 file is a full sphere for each eye. Reading the frame at
    // full height instead would call it a flat 1:1 picture and put a
    // panorama on a screen.
    let format = infer(b"Reef", b"row_interleaved_lr", 3840, 3840);
    assert_eq!(format.packing, ROW_INTERLEAVED);
    assert_eq!(format.projection, EQUIRECT_360);

    // And an ordinary 3D television file is still a screen: 1920x1080
    // interleaved is 1920x540 per eye, which is nothing like a sphere.
    let film = infer(b"Gravity", b"row_interleaved_lr", 1920, 1080);
    assert_eq!(film.projection, FLAT);
}

#[test]
fn packing_and_unpacking_a_format_is_the_identity() {
    let format = Format {
        packing: ROW_INTERLEAVED,
        projection: EQUIRECT_180,
        swap_eyes: true,
        anaglyph_pair: 2,
        verdict: Verdict::Chosen,
    };
    assert_eq!(Format::unpack(format.pack()), format);
    assert_eq!(Format::unpack(Format::default().pack()), Format::default());
}

/// Builds a submission buffer the way the caller would.
fn batch(entries: &[(&str, &str, u32, u32)]) -> (Vec<u8>, Vec<u32>) {
    let mut blob = Vec::new();
    let mut meta = Vec::with_capacity(entries.len() * META_WORDS);
    for (name, mode, width, height) in entries {
        let name_offset = blob.len() as u32;
        blob.extend_from_slice(name.as_bytes());
        let mode_offset = blob.len() as u32;
        blob.extend_from_slice(mode.as_bytes());
        meta.extend_from_slice(&[
            name_offset,
            name.len() as u32,
            mode_offset,
            mode.len() as u32,
            *width,
            *height,
        ]);
    }
    (blob, meta)
}

#[test]
fn a_batch_reads_the_same_as_the_entries_read_one_at_a_time() {
    // The batch path exists for speed, and the only thing that would make
    // it worth having is that it cannot disagree with the simple one.
    let entries: Vec<(String, String, u32, u32)> = (0..1000)
        .map(|i| {
            let names = [
                "Arrival (2016)",
                "Holiday_TB.mkv",
                "climb_vr180_sbs.mp4",
                "insta360 dive",
                "Dune",
            ];
            let modes = ["", "mono", "left_right", "row_interleaved_rl", "  "];
            (
                format!("{}{i}", names[i % names.len()]),
                modes[i % modes.len()].to_string(),
                if i % 3 == 0 { 3840 } else { 1920 },
                if i % 3 == 0 { 1920 } else { 1080 },
            )
        })
        .collect();
    let borrowed: Vec<(&str, &str, u32, u32)> = entries
        .iter()
        .map(|(n, m, w, h)| (n.as_str(), m.as_str(), *w, *h))
        .collect();

    let (blob, meta) = batch(&borrowed);
    let mut out = vec![0u32; borrowed.len()];
    assert_eq!(infer_batch(&blob, &meta, &mut out), borrowed.len());

    for (i, (name, mode, width, height)) in borrowed.iter().enumerate() {
        let alone = infer(name.as_bytes(), mode.as_bytes(), *width, *height);
        assert_eq!(Format::unpack(out[i]), alone, "entry {i}: {name:?}");
    }
}

#[test]
fn a_batch_far_larger_than_any_real_listing_is_still_read_whole() {
    // Two orders of magnitude past a plausible folder. Nothing here scales
    // with the batch, and the point is that nothing starts to.
    let entries: Vec<(&str, &str, u32, u32)> =
        (0..65_536).map(|_| ("Reef_TB", "", 3840, 3840)).collect();
    let (blob, meta) = batch(&entries);
    let mut out = vec![u32::MAX; entries.len()];
    assert_eq!(infer_batch(&blob, &meta, &mut out), entries.len());
    let expected = infer(b"Reef_TB", b"", 3840, 3840).pack();
    assert!(
        out.iter().all(|&w| w == expected),
        "an entry went unwritten"
    );
}

#[test]
fn a_description_that_points_outside_the_blob_yields_nothing() {
    // A listing half-read is worse than one not read: the caller cannot
    // tell which half.
    let (blob, mut meta) = batch(&[("Reef", "", 3840, 1920), ("Dive", "", 3840, 3840)]);
    meta[6] = blob.len() as u32 + 10;
    let mut out = vec![0u32; 2];
    assert_eq!(infer_batch(&blob, &meta, &mut out), 0);
    assert_eq!(out, vec![0, 0], "nothing should have been written");
}

#[test]
fn an_empty_batch_is_not_an_error() {
    let mut out: Vec<u32> = Vec::new();
    assert_eq!(infer_batch(&[], &[], &mut out), 0);
}

#[test]
fn the_threaded_path_reads_exactly_what_the_serial_one_does() {
    // Whether the batch is split is a timing decision, so the two paths
    // must be indistinguishable in their output. A chunk written twice, or
    // an off-by-one in the base index, shows up here.
    let entries: Vec<(&str, &str, u32, u32)> = (0..1000)
        .map(|i| {
            let names = ["Arrival", "Holiday_TB.mkv", "climb_vr180_sbs.mp4", "Dune"];
            let modes = ["", "mono", "row_interleaved_rl", "anaglyph_green_magenta"];
            (
                names[i % names.len()],
                modes[i % modes.len()],
                if i % 2 == 0 { 3840 } else { 1920 },
                if i % 2 == 0 { 1920 } else { 1080 },
            )
        })
        .collect();
    let (blob, meta) = batch(&entries);

    let mut serial = vec![0u32; entries.len()];
    infer_serial(&blob, &meta, &mut serial);
    // Handed out chunk by chunk off the end, the way workers claim them.
    let mut threaded = vec![u32::MAX; entries.len()];
    infer_chunked(&blob, &meta, &mut threaded);
    assert_eq!(threaded, serial);
    // And each chunk on its own, from every other end and with other sizes.
    for size in [1usize, 7, CHUNK, 333] {
        let mut parts = vec![u32::MAX; entries.len()];
        for (index, chunk) in parts.chunks_mut(size).enumerate() {
            infer_chunk(&blob, &meta, index * size, chunk);
        }
        assert_eq!(parts, serial, "in chunks of {size}");
    }
    // The plan decides how a batch is gone through, never what comes out.
    for plan in [
        Plan::serial(),
        Plan {
            threshold: 1,
            threads: 8,
        },
    ] {
        let mut out = vec![u32::MAX; entries.len()];
        assert_eq!(
            infer_batch_using(plan, &blob, &meta, &mut out),
            entries.len()
        );
        assert_eq!(out, serial, "{plan:?}");
    }
}

#[test]
fn a_partial_chunk_at_the_end_is_not_lost() {
    // The batch is claimed in chunks of CHUNK, and a listing is not a
    // multiple of it. The last, short chunk is the one an index arithmetic
    // slip drops.
    let count = CHUNK * 3 + 7;
    let entries: Vec<(&str, &str, u32, u32)> =
        (0..count).map(|_| ("Reef_TB", "", 3840, 3840)).collect();
    let (blob, meta) = batch(&entries);
    let mut out = vec![u32::MAX; count];
    infer_chunked(&blob, &meta, &mut out);
    let expected = infer(b"Reef_TB", b"", 3840, 3840).pack();
    assert!(
        out.iter().all(|&w| w == expected),
        "an entry went unwritten"
    );
}

#[test]
fn nothing_is_split_until_the_machine_has_been_measured() {
    // The conservative default matters more than the fast one: a listing
    // read on one core is merely not as fast as it could be, whereas one
    // split across cores that cost more than they save is slower than doing
    // nothing clever at all.
    assert_eq!(Plan::serial().threads, 1);
    assert_eq!(Plan::serial().threshold, usize::MAX);
}

#[test]
fn measuring_the_machine_yields_a_plan_that_can_be_acted_on() {
    // What the numbers come out as depends on the machine and is not
    // asserted. That they are usable is: a threshold of zero would split
    // every listing however small, and zero threads would read none of it.
    for threads in [0usize, 1, 2, 8] {
        for (lower, upper) in [(false, false), (false, true), (true, false), (true, true)] {
            let plan = settle(threads, lower, upper);
            assert!(plan.threads >= 1, "{plan:?}");
            assert!(plan.threshold > 0, "{plan:?}");
            if plan.threads == 1 {
                assert_eq!(plan.threshold, usize::MAX, "one thread is not a split");
            }
        }
    }
}

#[test]
fn a_race_settles_the_smallest_size_that_was_won() {
    assert_eq!(plan(None), Plan::serial());
    let measured = settle(8, true, false);
    assert_eq!((measured.threshold, measured.threads), (LOWER_RUNG, 8));
    assert_eq!(plan(Some(measured)), measured);
    assert_eq!(settle(4, true, true).threshold, 8192);
    assert_eq!(settle(4, false, true).threshold, UPPER_RUNG);
    assert_eq!(UPPER_RUNG, 32_768);
    assert_eq!(settle(4, false, false).threshold, usize::MAX);
    assert_eq!(settle(1, true, true), Plan::serial());
    assert!(measured.splits(8192) && !measured.splits(8191));
    assert!(!Plan::serial().splits(usize::MAX));
}

#[test]
fn every_format_word_survives_both_ways() {
    for packing in 0..8u32 {
        for projection in 0..8u32 {
            for (pair, verdict) in [
                (0, Verdict::Guessed),
                (1, Verdict::Catalogued),
                (2, Verdict::Declared),
                (3, Verdict::Chosen),
            ] {
                let format = Format {
                    packing,
                    projection,
                    swap_eyes: packing % 2 == 1,
                    anaglyph_pair: pair,
                    verdict,
                };
                assert_eq!(Format::unpack(format.pack()), format);
            }
        }
    }
    for word in 0..4096u32 {
        assert_eq!(Format::unpack(word).pack(), word % 2048);
    }
    let known = Format {
        packing: ROW_INTERLEAVED,
        projection: FLAT,
        swap_eyes: true,
        anaglyph_pair: 1,
        verdict: Verdict::Catalogued,
    };
    assert_eq!(known.pack(), 4 | 2 << 3 | 1 << 6 | 1 << 7 | 1 << 9);
    assert_eq!(Format::default().packing, MONO);
    assert_eq!(Verdict::default(), Verdict::Guessed);
}

#[test]
fn a_name_is_lowered_byte_by_byte() {
    for b in 0..=255u8 {
        assert_eq!(fold(b), b.to_ascii_lowercase());
    }
    assert!(eq_fold(b"Left_RIGHT", b"left_right"));
    assert!(!eq_fold(b"left", b"left_right"));
    assert_eq!(trim(b" \t\n\x0c\r mono \r\n"), b"mono");
    assert_eq!(trim(b" \x0bmono"), b"\x0bmono");
    assert_eq!(trim(b"  "), b"");
}

/// Every word of the vocabulary, in any case and with blanks around it.
#[test]
fn the_catalogue_s_vocabulary_is_read_whole() {
    let all = [
        ("mono", Some((MONO, false, 0))),
        ("left_right", Some((SIDE_BY_SIDE, false, 0))),
        ("lr", Some((SIDE_BY_SIDE, false, 0))),
        ("sbs", Some((SIDE_BY_SIDE, false, 0))),
        ("side_by_side", Some((SIDE_BY_SIDE, false, 0))),
        ("right_left", Some((SIDE_BY_SIDE, true, 0))),
        ("rl", Some((SIDE_BY_SIDE, true, 0))),
        ("top_bottom", Some((OVER_UNDER, false, 0))),
        ("tb", Some((OVER_UNDER, false, 0))),
        ("over_under", Some((OVER_UNDER, false, 0))),
        ("bottom_top", Some((OVER_UNDER, true, 0))),
        ("row_interleaved_lr", Some((ROW_INTERLEAVED, false, 0))),
        ("row_interleaved_rl", Some((ROW_INTERLEAVED, true, 0))),
        ("anaglyph_cyan_red", Some((ANAGLYPH, false, 0))),
        ("anaglyph_green_magenta", Some((ANAGLYPH, false, 1))),
        ("anaglyph_yellow_blue", Some((ANAGLYPH, false, 2))),
        ("checkerboard_lr", None),
        ("bt", None),
        ("l r", None),
        ("", None),
    ];
    for (mode, stated) in all {
        assert_eq!(packing_for_stereo_mode(mode.as_bytes()), stated, "{mode}");
        let loud = format!("  {}\t", mode.to_uppercase());
        assert_eq!(packing_for_stereo_mode(loud.as_bytes()), stated, "{loud:?}");
    }
}

/// The rules on a frame's shape, computed the plain way in single precision.
fn packing_by_shape(width: u32, height: u32) -> u32 {
    if width == 0 || height == 0 {
        return MONO;
    }
    let aspect = width as f32 / height as f32;
    if aspect < 1.0 {
        OVER_UNDER
    } else if aspect > 2.9 {
        SIDE_BY_SIDE
    } else {
        MONO
    }
}

fn projection_by_shape(packing: u32, width: u32, height: u32) -> u32 {
    if width == 0 || height == 0 {
        return FLAT;
    }
    let aspect = match packing {
        OVER_UNDER | ROW_INTERLEAVED => width as f32 / (height as f32 / 2.0),
        SIDE_BY_SIDE => (width as f32 / 2.0) / height as f32,
        _ => width as f32 / height as f32,
    };
    if (aspect - 2.0).abs() < 0.06 {
        EQUIRECT_360
    } else if packing != MONO && (aspect - 1.0).abs() < 0.06 {
        EQUIRECT_180
    } else {
        FLAT
    }
}

fn agrees_with_single_precision(width: u32, height: u32) {
    let signature = Signature::of(b"Film");
    assert_eq!(
        packing_for(b"Film", signature, width, height),
        packing_by_shape(width, height),
        "{width}x{height}"
    );
    for packing in [MONO, OVER_UNDER, SIDE_BY_SIDE, ANAGLYPH, ROW_INTERLEAVED] {
        assert_eq!(
            projection_for(b"Film", signature, packing, width, height),
            projection_by_shape(packing, width, height),
            "{width}x{height} as {packing}"
        );
    }
}

#[test]
fn shapes_are_judged_the_way_single_precision_judges_them() {
    // Every small shape.
    for height in 0..130u32 {
        for width in 0..420u32 {
            agrees_with_single_precision(width, height);
        }
    }
    // Large ones, around each of the ratios that matters, where rounding decides.
    for height in [999_983u32, 8_388_609, 16_777_217, 33_554_435, 715_827_883, 1_431_655_765] {
        for ratio in [0.94f64, 1.06, 1.88, 1.94, 2.06, 2.12, 2.9, 3.88, 4.12, 0.47, 0.53, 0.97, 1.03] {
            let middle = (height as f64 * ratio) as u64;
            for delta in 0..160u64 {
                for width in [middle.saturating_sub(delta), middle + delta] {
                    if width <= u32::MAX as u64 {
                        agrees_with_single_precision(width as u32, height);
                    }
                }
            }
        }
    }
    // And shapes of no plan at all.
    let mut seed = 7u64;
    for _ in 0..200_000 {
        seed = seed.wrapping_mul(6_364_136_223_846_793_005).wrapping_add(99);
        let shift = (seed >> 59) as u32;
        agrees_with_single_precision((seed >> 32) as u32 >> (shift % 24), seed as u32 >> (shift % 20));
    }
}

#[test]
fn a_marker_in_the_name_says_what_the_frame_is() {
    let square = |name: &str| infer(name.as_bytes(), b"", 1000, 1000);
    for marker in over_under_markers() {
        let name = [b"A Film ".as_slice(), marker.needle, b" x".as_slice()].concat();
        assert_eq!(infer(&name, b"", 1920, 1080).packing, OVER_UNDER);
    }
    for marker in vr180_markers() {
        let name = [b"A Film ".as_slice(), marker.needle].concat();
        assert_eq!(infer(&name, b"", 1920, 1080).projection, EQUIRECT_180);
    }
    for marker in panorama_markers() {
        let name = [b"A Film ".as_slice(), marker.needle].concat();
        assert_eq!(infer(&name, b"", 1920, 1080).projection, EQUIRECT_360);
    }
    assert_eq!(square("A Film").projection, FLAT, "a square film is merely unusual");
    assert_eq!(infer(b"A Film", b"sbs", 2000, 1000).projection, EQUIRECT_180);
}

#[test]
fn entries_are_slices_of_the_blob() {
    let (blob, meta) = batch(&[("Reef", "mono", 3840, 1920), ("Dive", "", 1, 2)]);
    let e = entry(&blob, &meta, 0).unwrap();
    assert_eq!((e.name, e.mode, e.width, e.height), (&b"Reef"[..], &b"mono"[..], 3840, 1920));
    let e = entry(&blob, &meta, 1).unwrap();
    assert_eq!((e.name, e.mode, e.width, e.height), (&b"Dive"[..], &b""[..], 1, 2));
    assert!(entry(&blob, &meta, 2).is_none());
    assert!(entry(&blob, &meta, usize::MAX).is_none());
    assert_eq!(readable_count(&blob, &meta, 2), 2);
    assert_eq!(readable_count(&blob, &meta, 1), 1);
    assert_eq!(readable_count(&blob, &meta, 3), 0);
    assert_eq!(readable_count(&blob, &meta[..11], 2), 0);
    assert_eq!(readable_count(&blob, &meta[..11], 1), 1);
}

#[test]
fn a_short_description_writes_nothing_at_all() {
    let (blob, meta) = batch(&[("Reef", "", 3840, 1920), ("Dive", "", 1, 2)]);
    let split = Plan { threshold: 1, threads: 4 };
    for len in 3..6 {
        let mut out = vec![77u32; len];
        assert_eq!(infer_batch(&blob, &meta, &mut out), 0);
        assert_eq!(infer_batch_using(split, &blob, &meta, &mut out), 0);
        assert_eq!(out, vec![77u32; len]);
    }
    // A description with a word missing describes one entry less.
    let mut out = vec![77u32; 2];
    assert_eq!(infer_batch(&blob, &meta[..11], &mut out), 0);
    assert_eq!(out, [77, 77]);
    assert_eq!(infer_batch(&blob, &meta, &mut out), 2);
    assert_eq!(out[0], infer(b"Reef", b"", 3840, 1920).pack());
    // A description may hold more entries than are asked for.
    let mut out = [77u32; 1];
    assert_eq!(infer_batch(&blob, &meta, &mut out), 1);
    assert_eq!(out[0], infer(b"Reef", b"", 3840, 1920).pack());
}

#[test]
fn the_synthetic_listing_reads_back() {
    let (blob, meta) = calibration_sample(500);
    assert_eq!(meta.len(), 500 * META_WORDS);
    assert_eq!(readable_count(&blob, &meta, 500), 500);
    let stems = [
        "An Ordinary Film (2016) 2160p",
        "Holiday_TB.mkv",
        "climb_vr180_sbs.mp4",
        "The Longest Title Anyone Would Reasonably Give A File",
    ];
    let modes = ["", "mono", "left_right"];
    let mut names = Vec::new();
    for i in 0..500usize {
        let e = entry(&blob, &meta, i).unwrap();
        assert_eq!(e.name, format!("{}{i}", stems[i % 4]).as_bytes());
        assert_eq!(e.mode, modes[i % 3].as_bytes());
        assert_eq!((e.width, e.height), (3840, 1920));
        assert!(!names.contains(&e.name), "{i} is not distinct");
        names.push(e.name);
    }
}

#[test]
fn the_same_characters_sign_the_same() {
    assert_eq!(Signature::of(b"Reef-360_TB"), Signature::of(b"bt_063-FERE"));
    assert_eq!(Signature::of(b""), Signature::default());
    assert_ne!(Signature::of(b"Reef"), Signature::of(b"Rees"));
}
