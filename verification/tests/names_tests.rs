use dcreel::logging::{bytes_after, rotated_extension, rotated_path, rotation_renames, should_rotate, MAX_LOG_BYTES};
use dcreel::ipc::ARG_QUIT;
use dcreel::names::{
    class_key, command_line, new_folder_name, normalize_color_value, numbered_file_name, normalized_title,
    redacted_arguments, safe_directory_name, thumbnail_extension, truncate,
    validate_windows_item_name,
};

#[test]
fn windows_item_name_validation_rejects_unsafe_names() {
    for name in [
        "", ".", "..", "trailing ", "trailing.", "bad:name.txt", "bad?.txt", "CON", "con.txt",
        "COM1.log", "LPT9",
    ] {
        assert!(validate_windows_item_name(name).is_err(), "{name:?} should be rejected");
    }
    for name in ["项目计划.docx", "COM10.log", "LPT0", "ordinary name"] {
        assert!(validate_windows_item_name(name).is_ok(), "{name:?} should be accepted");
    }
}

#[test]
fn item_name_errors_say_what_is_wrong() {
    assert_eq!(validate_windows_item_name(""), Err("项目名称不能为空".to_string()));
    assert_eq!(validate_windows_item_name(".."), Err("项目名称不能是 . 或 ..".to_string()));
    assert_eq!(validate_windows_item_name("a."), Err("项目名称不能以空格或句点结尾".to_string()));
    assert_eq!(validate_windows_item_name("a|b"), Err("项目名称包含 Windows 不允许的字符".to_string()));
    assert_eq!(validate_windows_item_name("nul .txt"), Err("项目名称是 Windows 保留设备名".to_string()));
    assert_eq!(validate_windows_item_name("aux"), Err("项目名称是 Windows 保留设备名".to_string()));
}

#[test]
fn directory_names_drop_windows_reserved_characters() {
    assert_eq!(safe_directory_name("  项目:A/B?  "), "项目 A B");
}

#[test]
fn empty_directory_names_get_a_random_suffix() {
    let name = safe_directory_name(" ... ");
    assert!(name.starts_with("收纳盒-"));
    let suffix: Vec<char> = name.chars().skip(4).collect();
    assert_eq!(suffix.len(), 8);
    assert!(suffix.iter().all(|c| c.is_ascii_hexdigit() && !c.is_ascii_uppercase()));
    let long: String = std::iter::repeat('x').take(70).collect();
    assert_eq!(safe_directory_name(&long).chars().count(), 60);
}

#[test]
fn fence_colors_accept_arbitrary_hex_and_content_materials() {
    assert_eq!(normalize_color_value(" #12abEf ", "coral", false), "#12ABEF");
    assert_eq!(normalize_color_value("#0f8342", "paper", true), "#0F8342");
    assert_eq!(normalize_color_value("paper", "paper", true), "paper");
    assert_eq!(normalize_color_value("frosted", "paper", true), "frosted");
    assert_eq!(normalize_color_value("frosted", "coral", false), "coral");
    assert_eq!(normalize_color_value("#12XZ89", "paper", true), "paper");
}

#[test]
fn titles_are_trimmed_and_limited() {
    assert_eq!(normalized_title("  项目资料 "), Ok("项目资料".to_string()));
    assert_eq!(normalized_title("   "), Err("盒子名称不能为空".to_string()));
    let long: String = std::iter::repeat('y').take(100).collect();
    assert_eq!(normalized_title(&long).unwrap().chars().count(), 80);
}

#[test]
fn command_lines_quote_paths_with_spaces() {
    assert_eq!(
        command_line(r"C:\Program Files\DCreel\dcreel.exe", "--show"),
        r#""C:\Program Files\DCreel\dcreel.exe" --show"#
    );
    assert_eq!(
        command_line(r"C:\Program Files\DCreel\dcreel.exe", ARG_QUIT),
        r#""C:\Program Files\DCreel\dcreel.exe" --quit"#
    );
}

#[test]
fn class_key_names_the_in_process_server() {
    assert_eq!(
        class_key(),
        r"Software\Classes\CLSID\{7C998A5B-2F68-4A76-9C88-7209A70F4CA0}\InprocServer32"
    );
}

#[test]
fn rotated_paths_keep_the_log_extension_visible() {
    assert_eq!(rotated_path("dcreel.log", 1), "dcreel.log.1");
    assert_eq!(rotated_path("dcreel.log", 5), "dcreel.log.5");
}

#[test]
fn rotation_moves_older_logs_up_one_place() {
    assert_eq!(rotation_renames(5), vec![(4, 5), (3, 4), (2, 3), (1, 2)]);
    assert!(rotation_renames(1).is_empty());
    assert!(rotation_renames(0).is_empty());
    assert_eq!(rotated_extension(None, 3), "log.3");
    assert_eq!(rotated_extension(Some("txt".to_string()), 12), "txt.12");
}

#[test]
fn logs_rotate_only_past_the_limit() {
    assert!(!should_rotate(MAX_LOG_BYTES - 10, 10));
    assert!(should_rotate(MAX_LOG_BYTES - 10, 11));
    assert!(should_rotate(u64::MAX, 1));
    assert_eq!(bytes_after(u64::MAX, 5), u64::MAX);
    assert_eq!(bytes_after(3, 5), 8);
}

#[test]
fn startup_arguments_hide_paths_in_the_log() {
    let args: Vec<String> = ["dcreel.exe", "--map-folder", r"C:\secret", "--show", "other"]
        .into_iter()
        .map(String::from)
        .collect();
    assert_eq!(
        redacted_arguments(&args),
        vec!["--map-folder", "<path>", "--show", "<argument>"]
    );
    assert!(redacted_arguments(&args[..1]).is_empty());
}

#[test]
fn log_text_is_cut_by_characters() {
    assert_eq!(truncate("项目资料", 2), "项目");
    assert_eq!(truncate("ab", 10), "ab");
}

#[test]
fn new_folder_names_count_up() {
    assert_eq!(new_folder_name(1), "新建文件夹");
    assert_eq!(new_folder_name(2), "新建文件夹 (2)");
    assert_eq!(new_folder_name(10000), "新建文件夹 (10000)");
}

#[test]
fn thumbnail_extension_list_ignores_case() {
    assert!(thumbnail_extension("PNG"));
    assert!(thumbnail_extension("webm"));
    assert!(!thumbnail_extension("exe"));
    assert!(!thumbnail_extension(""));
}

#[test]
fn taken_file_names_get_a_number_before_the_extension() {
    assert_eq!(numbered_file_name("report", Some("txt"), 2), "report (2).txt");
    assert_eq!(numbered_file_name("报告", Some("docx"), 12), "报告 (12).docx");
    assert_eq!(numbered_file_name("notes", None, 3), "notes (3)");
}

#[test]
fn plain_log_names_without_an_extension_get_log() {
    assert_eq!(rotated_path("notes", 3), "notes.log.3");
    assert_eq!(rotated_path(".hidden", 1), ".hidden.log.1");
    assert_eq!(rotated_path("archive.tar.gz", 2), "archive.tar.gz.2");
}
