use diskscope::engine::domain::file_type::FileType;


#[test]
fn file_type_should_classify_audio_extensions() {
    assert_eq!(FileType::from_extension("mp3"), FileType::Audio);
    assert_eq!(FileType::from_extension("WAV"), FileType::Audio);
    assert_eq!(FileType::from_extension("flac"), FileType::Audio);
}

#[test]
fn file_type_should_classify_video_extensions() {
    assert_eq!(FileType::from_extension("mp4"), FileType::Video);
    assert_eq!(FileType::from_extension("MKV"), FileType::Video);
}

#[test]
fn file_type_should_classify_image_extensions() {
    assert_eq!(FileType::from_extension("png"), FileType::Image);
    assert_eq!(FileType::from_extension("JPG"), FileType::Image);
}

#[test]
fn file_type_should_classify_document_extensions() {
    assert_eq!(FileType::from_extension("pdf"), FileType::Document);
    assert_eq!(FileType::from_extension("docx"), FileType::Document);
}

#[test]
fn file_type_should_classify_code_extensions() {
    assert_eq!(FileType::from_extension("rs"), FileType::Code);
    assert_eq!(FileType::from_extension("py"), FileType::Code);
    assert_eq!(FileType::from_extension("JS"), FileType::Code);
}

#[test]
fn file_type_should_classify_archive_extensions() {
    assert_eq!(FileType::from_extension("zip"), FileType::Archive);
    assert_eq!(FileType::from_extension("gz"), FileType::Archive);
}

#[test]
fn should_return_other_for_unknown_extensions() {
    assert_eq!(FileType::from_extension("xyz"), FileType::Other);
    assert_eq!(FileType::from_extension(""), FileType::Other);
}

#[test]
fn should_classify_from_filename() {
    assert_eq!(FileType::from_filename("song.mp3"), FileType::Audio);
    assert_eq!(FileType::from_filename("photo.JPG"), FileType::Image);
    assert_eq!(FileType::from_filename("noext"), FileType::Other);
}

