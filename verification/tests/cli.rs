use gitgui::cli::{parse, Cli, USAGE};

/// Why each argument would be refused as the value of `--scale` and of
/// `--font-size`, as the program reads those numbers.
fn number_errors(args: &[String]) -> (Vec<Option<String>>, Vec<Option<String>>) {
    let scale = args
        .iter()
        .map(|v| match v.parse::<f32>() {
            Err(_) => Some(format!("bad scale {v:?}")),
            Ok(s) if !(0.5..=4.0).contains(&s) => Some(format!("scale {s} out of range 0.5..4")),
            Ok(_) => None,
        })
        .collect();
    let font = args
        .iter()
        .map(|v| match v.parse::<f32>() {
            Err(_) => Some(format!("bad font size {v:?}")),
            Ok(_) => None,
        })
        .collect();
    (scale, font)
}

fn p(args: &[&str]) -> Result<Cli, String> {
    let args: Vec<String> = args.iter().map(|s| s.to_string()).collect();
    let (scale, font) = number_errors(&args);
    parse(&args, &scale, &font)
}

fn scale(c: &Cli) -> Option<f32> {
    c.scale.as_deref().map(|s| s.parse::<f32>().unwrap())
}

#[test]
fn parses_headless_and_size() {
    let c = p(&["--headless-frame", "/tmp/x.png", "--size", "800x600", "--scale", "2"]).unwrap();
    assert_eq!(c.headless.as_deref().unwrap(), "/tmp/x.png");
    assert_eq!(c.size, (800, 600));
    assert_eq!(scale(&c), Some(2.0));
    assert!(!c.probe);
}

#[test]
fn rejects_bad_input() {
    assert!(p(&["--size", "800"]).is_err());
    assert!(p(&["--scale", "9"]).is_err());
    assert!(p(&["--bogus"]).is_err());
    assert!(p(&["--headless-frame"]).is_err());
}

#[test]
fn positional_path() {
    let c = p(&["--no-shm", "/some/repo"]).unwrap();
    assert!(c.no_shm);
    assert_eq!(c.path.unwrap(), "/some/repo");
}

#[test]
fn cli_error_messages() {
    assert_eq!(p(&["--size", "800"]).unwrap_err(), "--size expects WxH, got \"800\"");
    assert_eq!(p(&["--size", "8x"]).unwrap_err(), "bad height \"\"");
    assert_eq!(p(&["--size", "ax9"]).unwrap_err(), "bad width \"a\"");
    assert_eq!(p(&["--scale", "9"]).unwrap_err(), "scale 9 out of range 0.5..4");
    assert_eq!(p(&["--font-size", "big"]).unwrap_err(), "bad font size \"big\"");
    assert_eq!(p(&["--bogus"]).unwrap_err(), format!("unknown argument \"--bogus\"\n{USAGE}"));
    assert_eq!(p(&["--headless-frame"]).unwrap_err(), format!("--headless-frame needs a value\n{USAGE}"));
    assert_eq!(p(&["-h"]).unwrap_err(), USAGE);
    // The first refused argument decides.
    assert_eq!(p(&["--scale", "9", "--bogus"]).unwrap_err(), "scale 9 out of range 0.5..4");
}

#[test]
fn defaults_and_flags() {
    let c = p(&[]).unwrap();
    assert_eq!(c.size, (1600, 1000));
    assert!(!c.probe && !c.dump_input && !c.no_shm && !c.crash);
    assert!(c.headless.is_none() && c.scale.is_none() && c.font_size.is_none() && c.path.is_none());
    let c = p(&["--probe", "--dump-input", "--crash", "--font-size", "14", "a", "b"]).unwrap();
    assert!(c.probe && c.dump_input && c.crash);
    assert_eq!(c.font_size.as_deref(), Some("14"));
    assert_eq!(c.path.as_deref(), Some("b"));
    assert_eq!(p(&["--size", "+3x4"]).unwrap().size, (3, 4));
}
