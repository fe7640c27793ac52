//! Command line parsing. The two options that take fractional numbers
//! (`--scale`, `--font-size`) keep their text here; the caller reads the
//! numbers and tells the parser, argument by argument, which texts it
//! refuses and why.
use vstd::prelude::*;
use vstd::slice::slice_subrange;

use crate::git::actions::split_once;
use crate::seqs::{find_char, starts_with};
use crate::text::{chars_of, parse_num_chars, parse_u32_chars, push_str, str_is, string_from_chars};

verus! {

pub const USAGE: &'static str = "usage: gitgui [options] [path]

  --probe                    print detected terminal capabilities and exit
  --dump-input               print decoded input events, Ctrl+C to exit
  --headless-frame <out.png> render one frame to a PNG and exit
  --size <WxH>               frame size for --headless-frame (default 1600x1000)
  --scale <1|1.5|2>          override pixels per point
  --font-size <N>            UI font size in points (default 13)
  --no-shm                   force the direct (base64 + zlib) transport
  -h, --help                 show this help";

/// What `format!("{:?}", s)` makes of `s`: the text quoted, with the
/// characters `str`'s `Debug` escapes escaped.
pub uninterp spec fn debug_text(s: Seq<char>) -> Seq<char>;

/// `format!("{s:?}")`. The result is named by `debug_text`.
#[verifier::external_body]
fn debug_quoted(s: &str) -> (r: String)
    ensures
        r@ == debug_text(s@),
{
    format!("{s:?}")
}

/// The parsed command line.
#[derive(Debug)]
pub struct Cli {
    pub probe: bool,
    pub dump_input: bool,
    pub no_shm: bool,
    pub crash: bool,
    pub headless: Option<String>,
    pub size: (u32, u32),
    /// The text of `--scale`, which the caller accepted as a number.
    pub scale: Option<String>,
    /// The text of `--font-size`, which the caller accepted as a number.
    pub font_size: Option<String>,
    pub path: Option<String>,
}

/// The mathematical value of a [`Cli`].
pub ghost struct CliView {
    pub probe: bool,
    pub dump_input: bool,
    pub no_shm: bool,
    pub crash: bool,
    pub headless: Option<Seq<char>>,
    pub size: (u32, u32),
    pub scale: Option<Seq<char>>,
    pub font_size: Option<Seq<char>>,
    pub path: Option<Seq<char>>,
}

pub open spec fn opt_view(o: Option<String>) -> Option<Seq<char>> {
    match o {
        Some(s) => Some(s@),
        None => None,
    }
}

impl View for Cli {
    type V = CliView;

    open spec fn view(&self) -> CliView {
        CliView {
            probe: self.probe,
            dump_input: self.dump_input,
            no_shm: self.no_shm,
            crash: self.crash,
            headless: opt_view(self.headless),
            size: self.size,
            scale: opt_view(self.scale),
            font_size: opt_view(self.font_size),
            path: opt_view(self.path),
        }
    }
}

/// The command line before any argument.
pub open spec fn default_cli() -> CliView {
    CliView {
        probe: false,
        dump_input: false,
        no_shm: false,
        crash: false,
        headless: None,
        size: (1600, 1000),
        scale: None,
        font_size: None,
        path: None,
    }
}

pub open spec fn needs_value(name: Seq<char>) -> Seq<char> {
    name + " needs a value\n"@ + USAGE@
}

/// Parse from argument `i` on, with `c` read so far. `scale_err[k]` and
/// `font_err[k]` are why argument `k` would be refused as the value of
/// `--scale` or `--font-size` (nothing when it would be accepted).
pub open spec fn parse_from(
    args: Seq<Seq<char>>,
    scale_err: Seq<Option<Seq<char>>>,
    font_err: Seq<Option<Seq<char>>>,
    i: int,
    c: CliView,
) -> Result<CliView, Seq<char>>
    decreases args.len() - i,
{
    if i < 0 || i >= args.len() {
        Ok(c)
    } else {
        let a = args[i];
        let has_value = i + 1 < args.len();
        if a == "--probe"@ {
            parse_from(args, scale_err, font_err, i + 1, CliView { probe: true, ..c })
        } else if a == "--dump-input"@ {
            parse_from(args, scale_err, font_err, i + 1, CliView { dump_input: true, ..c })
        } else if a == "--no-shm"@ {
            parse_from(args, scale_err, font_err, i + 1, CliView { no_shm: true, ..c })
        } else if a == "--crash"@ {
            parse_from(args, scale_err, font_err, i + 1, CliView { crash: true, ..c })
        } else if a == "--headless-frame"@ {
            if !has_value {
                Err(needs_value(a))
            } else {
                parse_from(args, scale_err, font_err, i + 2, CliView { headless: Some(args[i + 1]), ..c })
            }
        } else if a == "--size"@ {
            if !has_value {
                Err(needs_value(a))
            } else {
                let v = args[i + 1];
                match split_once(v, 'x') {
                    None => Err("--size expects WxH, got "@ + debug_text(v)),
                    Some((w, h)) => match parse_u32_chars(w) {
                        None => Err("bad width "@ + debug_text(w)),
                        Some(wv) => match parse_u32_chars(h) {
                            None => Err("bad height "@ + debug_text(h)),
                            Some(hv) => parse_from(args, scale_err, font_err, i + 2, CliView { size: (wv, hv), ..c }),
                        },
                    },
                }
            }
        } else if a == "--scale"@ {
            if !has_value {
                Err(needs_value(a))
            } else {
                match scale_err[i + 1] {
                    Some(e) => Err(e),
                    None => parse_from(args, scale_err, font_err, i + 2, CliView { scale: Some(args[i + 1]), ..c }),
                }
            }
        } else if a == "--font-size"@ {
            if !has_value {
                Err(needs_value(a))
            } else {
                match font_err[i + 1] {
                    Some(e) => Err(e),
                    None => parse_from(
                        args,
                        scale_err,
                        font_err,
                        i + 2,
                        CliView { font_size: Some(args[i + 1]), ..c },
                    ),
                }
            }
        } else if a == "-h"@ || a == "--help"@ {
            Err(USAGE@)
        } else if starts_with(a, "-"@) {
            Err("unknown argument "@ + debug_text(a) + "\n"@ + USAGE@)
        } else {
            parse_from(args, scale_err, font_err, i + 1, CliView { path: Some(a), ..c })
        }
    }
}

pub open spec fn texts(v: Seq<String>) -> Seq<Seq<char>> {
    v.map_values(|s: String| s@)
}

pub open spec fn opt_texts(v: Seq<Option<String>>) -> Seq<Option<Seq<char>>> {
    v.map_values(|o: Option<String>| opt_view(o))
}

fn clone_opt(o: &Option<String>) -> (r: Option<String>)
    ensures
        opt_view(r) == opt_view(*o),
{
    match o {
        Some(s) => Some(s.clone()),
        None => None,
    }
}

fn needs_value_msg(name: &str) -> (r: String)
    ensures
        r@ == needs_value(name@),
{
    let mut m = name.to_owned();
    push_str(&mut m, " needs a value\n");
    push_str(&mut m, USAGE);
    m
}

fn prefixed(lead: &str, s: &[char]) -> (r: String)
    ensures
        r@ == lead@ + debug_text(s@),
{
    let t = string_from_chars(s);
    let q = debug_quoted(t.as_str());
    let mut m = lead.to_owned();
    push_str(&mut m, q.as_str());
    m
}

/// Parse the arguments (without the program name). `scale_err[k]` and
/// `font_err[k]` say why argument `k` would be refused as the value of
/// `--scale` or `--font-size`; an error comes back for the first argument
/// that is refused, and the usage text for `-h` and `--help`.
pub fn parse(args: &[String], scale_err: &[Option<String>], font_err: &[Option<String>]) -> (r: Result<Cli, String>)
    requires
        scale_err@.len() == args@.len(),
        font_err@.len() == args@.len(),
    ensures
        match (r, parse_from(texts(args@), opt_texts(scale_err@), opt_texts(font_err@), 0, default_cli())) {
            (Ok(c), Ok(v)) => c@ == v,
            (Err(m), Err(e)) => m@ == e,
            _ => false,
        },
{
    let ghost av = texts(args@);
    let ghost sv = opt_texts(scale_err@);
    let ghost fv = opt_texts(font_err@);
    let mut cli = Cli {
        probe: false,
        dump_input: false,
        no_shm: false,
        crash: false,
        headless: None,
        size: (1600, 1000),
        scale: None,
        font_size: None,
        path: None,
    };
    let mut i: usize = 0;
    while i < args.len()
        invariant
            i <= args.len() + 1,
            av == texts(args@),
            sv == opt_texts(scale_err@),
            fv == opt_texts(font_err@),
            scale_err@.len() == args@.len(),
            font_err@.len() == args@.len(),
            parse_from(av, sv, fv, 0, default_cli()) == parse_from(av, sv, fv, i as int, cli@),
        decreases args.len() + 1 - i,
    {
        let a = args[i].as_str();
        assert(av[i as int] == a@);
        let has_value = i + 1 < args.len();
        if str_is(a, "--probe") {
            cli.probe = true;
            i = i + 1;
        } else if str_is(a, "--dump-input") {
            cli.dump_input = true;
            i = i + 1;
        } else if str_is(a, "--no-shm") {
            cli.no_shm = true;
            i = i + 1;
        } else if str_is(a, "--crash") {
            cli.crash = true;
            i = i + 1;
        } else if str_is(a, "--headless-frame") {
            if !has_value {
                return Err(needs_value_msg(a));
            }
            assert(av[i + 1] == args@[i + 1]@);
            cli.headless = Some(args[i + 1].clone());
            i = i + 2;
        } else if str_is(a, "--size") {
            if !has_value {
                return Err(needs_value_msg(a));
            }
            let v = chars_of(args[i + 1].as_str());
            assert(av[i + 1] == v@);
            match find_char(v.as_slice(), 'x') {
                None => return Err(prefixed("--size expects WxH, got ", v.as_slice())),
                Some(k) => {
                    let w = slice_subrange(v.as_slice(), 0, k);
                    let h = slice_subrange(v.as_slice(), k + 1, v.len());
                    assert(w@ == v@.take(k as int));
                    assert(h@ == v@.skip(k + 1));
                    match parse_num_chars(w) {
                        None => return Err(prefixed("bad width ", w)),
                        Some(wv) => match parse_num_chars(h) {
                            None => return Err(prefixed("bad height ", h)),
                            Some(hv) => {
                                cli.size = (wv, hv);
                                i = i + 2;
                            },
                        },
                    }
                },
            }
        } else if str_is(a, "--scale") {
            if !has_value {
                return Err(needs_value_msg(a));
            }
            assert(sv[i + 1] == opt_view(scale_err@[i + 1]));
            assert(av[i + 1] == args@[i + 1]@);
            match &scale_err[i + 1] {
                Some(e) => return Err(e.clone()),
                None => {
                    cli.scale = Some(args[i + 1].clone());
                    i = i + 2;
                },
            }
        } else if str_is(a, "--font-size") {
            if !has_value {
                return Err(needs_value_msg(a));
            }
            assert(fv[i + 1] == opt_view(font_err@[i + 1]));
            assert(av[i + 1] == args@[i + 1]@);
            match &font_err[i + 1] {
                Some(e) => return Err(e.clone()),
                None => {
                    cli.font_size = Some(args[i + 1].clone());
                    i = i + 2;
                },
            }
        } else if str_is(a, "-h") || str_is(a, "--help") {
            return Err(USAGE.to_owned());
        } else {
            let ac = chars_of(a);
            if ac.len() > 0 && ac[0] == '-' {
                proof {
                    reveal_strlit("-");
                    assert(a@.take(1) =~= "-"@);
                }
                let mut m = prefixed("unknown argument ", ac.as_slice());
                push_str(&mut m, "\n");
                push_str(&mut m, USAGE);
                return Err(m);
            }
            proof {
                reveal_strlit("-");
                if starts_with(a@, "-"@) {
                    assert(a@.take(1)[0] == '-');
                }
            }
            cli.path = Some(args[i].clone());
            i = i + 1;
        }
    }
    Ok(cli)
}

} // verus!
