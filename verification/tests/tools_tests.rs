use jutsu::cli::{parse_command, project_layout, Command};
use jutsu::inference::{chatml_prompt, is_stop_token, wants_logits, Generation, IM_END_TOKEN, MAX_GENERATED};
use jutsu::memory::{parse_quantization_type, quantization_code_of, quantize_params, LlamaModelQuantizeParams};
use jutsu::tgn_pm::{home_dir, is_direct_url, model_file_name, resolve_model_path};

fn args(a: &[&str]) -> Vec<String> {
    a.iter().map(|s| s.to_string()).collect()
}

#[test]
fn quantization_names_any_case() {
    assert_eq!(parse_quantization_type("q4_k_m"), 15);
    assert_eq!(parse_quantization_type("Q4_0"), 2);
    assert_eq!(parse_quantization_type("q4_1"), 3);
    assert_eq!(parse_quantization_type("q5_0"), 8);
    assert_eq!(parse_quantization_type("q5_1"), 9);
    assert_eq!(parse_quantization_type("q8_0"), 7);
    assert_eq!(parse_quantization_type("q5_k_m"), 17);
    assert_eq!(parse_quantization_type("q6_k"), 18);
    assert_eq!(parse_quantization_type("weird"), 15);
    assert_eq!(quantization_code_of("q8_0"), 15);
}

#[test]
fn quantize_params_keep_the_defaults() {
    let defaults = LlamaModelQuantizeParams { nthread: 0, ftype: 1, padding: [7u64; 32] };
    let p = quantize_params(defaults, "q8_0", 12);
    assert_eq!(p.ftype, 7);
    assert_eq!(p.nthread, 12);
    assert_eq!(p.padding, [7u64; 32]);
}

#[test]
fn model_paths_resolve_locally_first() {
    assert_eq!(resolve_model_path("m.gguf", true, "/c/m.gguf", true), Some("m.gguf".to_string()));
    assert_eq!(resolve_model_path("m.gguf", false, "/c/m.gguf", true), Some("/c/m.gguf".to_string()));
    assert_eq!(resolve_model_path("m.gguf", false, "/c/m.gguf", false), None);
}

#[test]
fn home_directory_settings() {
    assert_eq!(home_dir(Some("C:\\Users\\a"), Some("/home/a")), "C:\\Users\\a");
    assert_eq!(home_dir(None, Some("/home/a")), "/home/a");
    assert_eq!(home_dir(None, None), ".");
}

#[test]
fn model_addresses() {
    assert!(is_direct_url("https://huggingface.co/x/model.gguf"));
    assert!(!is_direct_url("model.gguf"));
    assert!(!is_direct_url("htt"));
    assert_eq!(model_file_name("https://huggingface.co/user/repo/resolve/main/model.gguf"), "model.gguf");
    assert_eq!(model_file_name("plain.gguf"), "plain.gguf");
    assert_eq!(model_file_name("https://x/"), "");
}

#[test]
fn command_line_commands() {
    assert!(matches!(parse_command(&args(&["tgn"])), Command::Repl));
    assert!(matches!(parse_command(&args(&["tgn", "run"])), Command::MissingRunFile));
    assert!(matches!(parse_command(&args(&["tgn", "help"])), Command::Help));
    assert!(matches!(parse_command(&args(&["tgn", "absorb"])), Command::MissingAbsorbUrl));
    match parse_command(&args(&["tgn", "absorb", "https://x/m.gguf"])) {
        Command::Absorb { url } => assert_eq!(url, "https://x/m.gguf"),
        _ => panic!("expected absorb"),
    }
    match parse_command(&args(&["tgn", "frobnicate"])) {
        Command::Unknown { command } => assert_eq!(command, "frobnicate"),
        _ => panic!("expected an unknown command"),
    }
}

#[test]
fn run_flags_are_upper_cased() {
    match parse_command(&args(&["tgn", "run", "main.ju", "--model", "qwen", "stray", "--temp", "0.5"])) {
        Command::Run { file, flags } => {
            assert_eq!(file, "main.ju");
            assert_eq!(
                flags,
                vec![
                    ("MODEL".to_string(), "qwen".to_string()),
                    ("TEMP".to_string(), "0.5".to_string()),
                ]
            );
        }
        _ => panic!("expected run"),
    }
}

#[test]
fn init_folders() {
    match parse_command(&args(&["tgn", "init", "--folder", "bot"])) {
        Command::Init { target_dir, project_name } => {
            assert_eq!(target_dir, "bot");
            assert_eq!(project_name, "bot");
        }
        _ => panic!("expected init"),
    }
    match parse_command(&args(&["tgn", "init"])) {
        Command::Init { target_dir, project_name } => {
            assert_eq!(target_dir, ".");
            assert_eq!(project_name, "jutsu_api");
        }
        _ => panic!("expected init"),
    }
}

#[test]
fn project_layout_paths() {
    let l = project_layout("bot", "bot");
    assert_eq!(l.api_dir, "bot/api");
    assert_eq!(l.toml_path, "bot/tgn.toml");
    assert_eq!(l.gitignore_path, "bot/.gitignore");
    assert_eq!(l.main_ju_path, "bot/api/main.ju");
    assert!(l.toml_content.starts_with("[package]\nname = \"bot\"\nversion = \"0.1.0\""));
    let here = project_layout(".", "jutsu_api");
    assert_eq!(here.api_dir, "api");
    assert_eq!(here.main_ju_path, "api/main.ju");
}

#[test]
fn chatml_prompts() {
    assert_eq!(
        chatml_prompt("Hi", None),
        "<|im_start|>user\nHi<|im_end|>\n<|im_start|>assistant\n"
    );
    assert_eq!(
        chatml_prompt("Hi", Some("Be brief")),
        "<|im_start|>system\nBe brief\n<|im_end|>\n<|im_start|>user\nHi<|im_end|>\n<|im_start|>assistant\n"
    );
}

#[test]
fn generation_stops_and_bounds() {
    assert!(is_stop_token(2, 2));
    assert!(is_stop_token(IM_END_TOKEN, 2));
    assert!(!is_stop_token(5, 2));
    assert!(wants_logits(2, 3));
    assert!(!wants_logits(0, 3));
    let mut g = Generation::start(&vec![10, 11, 12]);
    assert_eq!(g.next_pos, 3);
    let mut rounds = 0;
    while g.may_decode() {
        let pos = g.accept(100 + rounds);
        assert_eq!(pos, 3 + rounds);
        rounds += 1;
    }
    assert_eq!(rounds, MAX_GENERATED + 1);
    assert_eq!(g.history.len(), 3 + (MAX_GENERATED as usize) + 1);
    assert_eq!(&g.history[..3], &[10, 11, 12]);
}
