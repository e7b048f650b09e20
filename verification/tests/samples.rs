use sciproj::file::{is_audio_file_ext, AudioSampleEntry, AudioSampleScan, WalkedFile};
use sciproj::resources::{
    check_scannable, line_mappings_to_clip_map, normalize_path, AudioClip, DuplicateLine, LineMapping, MessageId, PathComponent, Sample, SampleDir,
    SampleError,
};

fn comps(p: &[&str]) -> Vec<PathComponent> {
    p.iter()
        .map(|c| match *c {
            "/" => PathComponent::RootDir,
            "." => PathComponent::CurDir,
            ".." => PathComponent::ParentDir,
            n => PathComponent::Normal(n.to_string()),
        })
        .collect()
}

fn show(cs: &[PathComponent]) -> Vec<String> {
    cs.iter()
        .map(|c| match c {
            PathComponent::Prefix(p) => p.clone(),
            PathComponent::RootDir => "/".to_string(),
            PathComponent::CurDir => ".".to_string(),
            PathComponent::ParentDir => "..".to_string(),
            PathComponent::Normal(n) => n.clone(),
        })
        .collect()
}

#[test]
fn normalize_drops_dots_and_parents() {
    assert_eq!(show(&normalize_path(&comps(&["a", ".", "b", "..", "c"]))), vec!["a", "c"]);
    assert_eq!(show(&normalize_path(&comps(&["/", "..", "x"]))), vec!["/", "..", "x"]);
    assert_eq!(show(&normalize_path(&comps(&["..", "a"]))), vec!["..", "a"]);
    // A `..` at the top of the path is kept, and a later one does not cancel it.
    assert_eq!(show(&normalize_path(&comps(&["..", ".."]))), vec!["..", ".."]);
    assert_eq!(
        show(&normalize_path(&comps(&["..", "..", "a", ".", "b", "..", "c"]))),
        vec!["..", "..", "a", "c"]
    );
    let once = normalize_path(&comps(&["a", "..", "..", "b", "."]));
    assert_eq!(show(&normalize_path(&once)), show(&once));
}

#[test]
fn audio_extensions_in_any_case() {
    for ext in ["wav", "MP3", "Ogg", "flac", "m4a", "OPUS", "aac"] {
        assert!(is_audio_file_ext(ext), "{ext}");
    }
    for ext in ["txt", "wave", "", "mp"] {
        assert!(!is_audio_file_ext(ext), "{ext}");
    }
}

fn entry(key: (u16, u8, u8, u8, u8), path: &str) -> AudioSampleEntry {
    AudioSampleEntry::PlainFile { line_id: key, path: path.to_string() }
}

#[test]
fn scan_finds_duplicates_and_valid_entries() {
    let scan = AudioSampleScan::from_entries(
        "samples".to_string(),
        vec![
            entry((2, 1, 1, 0, 1), "b.wav"),
            entry((1, 1, 1, 0, 1), "a.wav"),
            entry((2, 1, 1, 0, 1), "c.ogg"),
        ],
    );
    assert!(scan.has_duplicates());
    let valid = scan.get_valid_entries();
    assert_eq!(valid.len(), 1);
    assert_eq!(valid[0].0, (1, 1, 1, 0, 1));
    assert_eq!(valid[0].1.path, "a.wav");
    assert!(matches!(SampleDir::from_sample_scan(&scan), Err(SampleError::DuplicatesInScan)));
}

#[test]
fn duplicates_list_every_file_of_the_line_in_order() {
    let scan = AudioSampleScan::from_entries(
        "samples".to_string(),
        vec![
            entry((3, 1, 1, 0, 1), "b.wav"),
            entry((1, 1, 1, 0, 1), "a.wav"),
            entry((3, 1, 1, 0, 1), "b.ogg"),
            entry((2, 1, 1, 0, 1), "c.ogg"),
            entry((3, 1, 1, 0, 1), "b.mp3"),
        ],
    );
    let dups = scan.get_duplicates();
    assert_eq!(dups.len(), 1);
    assert_eq!(dups[0].0, (3, 1, 1, 0, 1));
    let paths: Vec<&str> = dups[0].1.iter().map(|s| s.path.as_str()).collect();
    assert_eq!(paths, vec!["b.wav", "b.ogg", "b.mp3"]);
    assert!(dups[0].1.iter().all(|s| s.start_us == 0 && s.end_us.is_none()));
    let valid = scan.get_valid_entries();
    assert_eq!(valid.len(), 2);
    assert_eq!(valid[0].0, (1, 1, 1, 0, 1));
    assert_eq!(valid[1].0, (2, 1, 1, 0, 1));
}

#[test]
fn no_duplicates_in_a_clean_scan() {
    let scan = AudioSampleScan::from_entries(
        "samples".to_string(),
        vec![entry((1, 1, 1, 0, 1), "a.wav"), entry((2, 1, 1, 0, 1), "b.wav")],
    );
    assert!(scan.get_duplicates().is_empty());
}

#[test]
fn sample_dir_from_a_clean_scan() {
    let scan = AudioSampleScan::from_entries(
        "samples".to_string(),
        vec![entry((9, 2, 3, 4, 5), "z.wav"), entry((1, 1, 1, 0, 1), "a.wav")],
    );
    assert!(!scan.has_duplicates());
    assert_eq!(scan.base_path(), "samples");
    assert_eq!(scan.entries().len(), 2);
    let dir = SampleDir::from_sample_scan(&scan).ok().unwrap();
    assert_eq!(dir.base_path, "samples");
    let samples = &dir.samples.0;
    assert_eq!(samples.len(), 2);
    assert_eq!(samples[0].room, 1);
    assert_eq!(samples[1].room, 9);
    assert_eq!(samples[1].message_id, MessageId { noun: 2, verb: 3, condition: 4, sequence: 5 });
    assert_eq!(samples[1].clip.start_us, Some(0));
    assert_eq!(samples[1].clip.end_us, None);
    assert_eq!(samples[1].clip.path, "z.wav");
}

fn sample(path: &str, start: Option<u64>, end: Option<u64>) -> Sample {
    Sample {
        room: 1,
        message_id: MessageId { noun: 1, verb: 1, condition: 0, sequence: 1 },
        clip: AudioClip { start_us: start, end_us: end, path: path.to_string() },
    }
}

#[test]
fn scannable_samples_are_whole_files_of_their_own() {
    assert!(check_scannable(&vec![sample("a", Some(0), None), sample("b", None, None)]).is_ok());
    assert!(matches!(
        check_scannable(&vec![sample("a", Some(10), None)]),
        Err(SampleError::ClipNotWholeFile)
    ));
    assert!(matches!(
        check_scannable(&vec![sample("a", None, Some(5))]),
        Err(SampleError::ClipNotWholeFile)
    ));
    match check_scannable(&vec![sample("a", None, None), sample("b", None, None), sample("a", None, None), sample("a", None, None)]) {
        Err(SampleError::SharedPaths(ps)) => assert_eq!(ps, vec![("a".to_string(), 3)]),
        other => panic!("expected shared paths, got {other:?}"),
    }
}

#[test]
fn no_mappings_give_an_empty_clip_map() {
    let m = line_mappings_to_clip_map(Vec::new(), "audio").unwrap();
    assert!(m.is_empty());
}

fn mapping(line_id: (u16, u8, u8, u8, u8), path: &str, start: Option<u64>) -> LineMapping {
    LineMapping { line_id, clip_path: path.to_string(), clip_start_ns: start, clip_end_ns: None }
}

#[test]
fn each_mapping_gives_its_line_a_clip() {
    let mappings = vec![mapping((1, 2, 3, 4, 5), "a.wav", Some(10)), mapping((1, 2, 3, 4, 6), "b.wav", None)];
    let m = line_mappings_to_clip_map(mappings, "audio").unwrap();
    assert_eq!(m.len(), 2);
    let a = &m[&(1, 2, 3, 4, 5)];
    assert_eq!(a.path, "audio/a.wav");
    assert_eq!(a.start_us, Some(10));
    assert_eq!(a.end_us, None);
    assert_eq!(m[&(1, 2, 3, 4, 6)].path, "audio/b.wav");
}

#[test]
fn a_line_mapped_twice_is_a_duplicate() {
    let mappings = vec![
        mapping((1, 2, 3, 4, 5), "a.wav", None),
        mapping((9, 9, 9, 9, 9), "c.wav", None),
        mapping((1, 2, 3, 4, 5), "b.wav", None),
    ];
    assert!(matches!(line_mappings_to_clip_map(mappings, "audio"), Err(DuplicateLine)));
}

fn walked(path: &str, ext: Option<&str>, line: Option<(u16, u8, u8, u8, u8)>) -> WalkedFile {
    WalkedFile { path: path.to_string(), extension: ext.map(|e| e.to_string()), stem_line: line }
}

#[test]
fn a_walk_keeps_audio_files_named_by_lines() {
    let files = vec![
        walked("1.2.3.4.5.wav", Some("wav"), Some((1, 2, 3, 4, 5))),
        walked("notes.txt", Some("txt"), None),
        walked("intro.ogg", Some("ogg"), None),
        walked("1.2.3.4.6", None, Some((1, 2, 3, 4, 6))),
        walked("sub/1.2.3.4.7.FLAC", Some("FLAC"), Some((1, 2, 3, 4, 7))),
    ];
    let scan = AudioSampleScan::read_from_walk("samples".to_string(), files);
    let ids: Vec<_> = scan.entries().iter().flat_map(|e| e.line_ids()).collect();
    assert_eq!(ids, vec![(1, 2, 3, 4, 5), (1, 2, 3, 4, 7)]);
}
