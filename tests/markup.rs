use fancy::buffer::ColorString;
use fancy::error::ColorError;
use fancy::expand::colorize;
use fancy::mode::{parse, resolve_token};
use fancy::scan::{render, scan};

fn ok(body: &str) -> String {
    render(body).expect("the markup is valid")
}

#[test]
fn plain_text_gets_a_reset() {
    assert_eq!(ok("Hello, {} world!"), "Hello, {} world!\x1b[0m");
    assert_eq!(ok(""), "\x1b[0m");
}

#[test]
fn named_modes_write_their_codes() {
    let table = [
        ("bold", "1"), ("b", "1"), ("dim", "2"), ("faint", "2"), ("italic", "3"), ("i", "3"),
        ("underline", "4"), ("u", "4"), ("inverse", "7"), ("!", "7"), ("hidden", "8"),
        ("strikethrough", "9"), ("s", "9"), ("black", "30"), ("red", "31"), ("green", "32"),
        ("yellow", "33"), ("blue", "34"), ("magenta", "35"), ("cyan", "36"), ("white", "37"),
        ("default", "39"), ("def", "39"), ("?black", "40"), ("?red", "41"), ("?green", "42"),
        ("?yellow", "43"), ("?blue", "44"), ("?magenta", "45"), ("?cyan", "46"),
        ("?white", "47"), ("?default", "49"), ("?def", "49"),
    ];
    for (name, code) in table {
        assert_eq!(ok(&format!("[{}]", name)), format!("\x1b[{}m\x1b[0m", code));
    }
}

#[test]
fn controls_write_fixed_sequences() {
    assert_eq!(ok("[vis]a"), "\x1b[?25la\x1b[0m");
    assert_eq!(ok("[visible]a"), "\x1b[?25la\x1b[0m");
    assert_eq!(ok("[invis]a"), "\x1b[?25ha\x1b[0m");
    assert_eq!(ok("[invisible]a"), "\x1b[?25ha\x1b[0m");
    assert_eq!(ok("[b|blink|u]a"), "\x1b[1m\x1b[5m\x1b[4ma\x1b[0m");
    assert_eq!(ok("[noblink]a"), "\x1b[25ma\x1b[0m");
}

#[test]
fn codes_of_one_expression_are_coalesced() {
    assert_eq!(ok("[bold|underline|blue]x"), "\x1b[1;4;34mx\x1b[0m");
}

#[test]
fn doubled_brackets_are_literal() {
    assert_eq!(ok("a[[b"), "a[b\x1b[0m");
    assert_eq!(ok("a]]b"), "a]b\x1b[0m");
    assert_eq!(ok("[[[red]x"), "[\x1b[31mx\x1b[0m");
    assert_eq!(ok("a]b"), "a]b\x1b[0m");
}

#[test]
fn unclosed_bracket_fails() {
    assert_eq!(render("[bold"), Err(ColorError::UnmatchedBracket(0)));
    assert_eq!(colorize("\"[bold\""), Err(ColorError::UnmatchedBracket(1)));
    assert_eq!(render("ab[red]c[u"), Err(ColorError::UnmatchedBracket(8)));
}

#[test]
fn nested_bracket_fails() {
    assert_eq!(render("[b[red]]"), Err(ColorError::NestedBracket(2)));
    assert_eq!(colorize("\"[b[red]]\""), Err(ColorError::NestedBracket(3)));
}

#[test]
fn hex_codes_are_written_in_decimal() {
    assert_eq!(ok("[#ababd2]"), "\x1b[38;2;171;171;210m\x1b[0m");
    assert_eq!(ok("[?#ababd2]"), "\x1b[48;2;171;171;210m\x1b[0m");
    assert_eq!(ok("[#ABABD2]"), "\x1b[38;2;171;171;210m\x1b[0m");
    assert_eq!(ok("[#000a09]"), "\x1b[38;2;0;10;9m\x1b[0m");
}

#[test]
fn ansi_ids_are_passed_through() {
    assert_eq!(ok("[bold|214]x"), "\x1b[1;38;5;214mx\x1b[0m");
    assert_eq!(ok("[?187]x"), "\x1b[48;5;187mx\x1b[0m");
    assert_eq!(ok("[7|?0]x"), "\x1b[38;5;7;48;5;0mx\x1b[0m");
}

#[test]
fn unknown_token_fails() {
    assert_eq!(render("[notacolor]"), Err(ColorError::UnknownModifier("notacolor".to_string())));
    assert_eq!(render("[b|?]"), Err(ColorError::UnknownModifier("?".to_string())));
}

#[test]
fn long_ansi_ids_fail() {
    assert_eq!(render("[1234]"), Err(ColorError::MalformedNumericCode("1234".to_string())));
    assert_eq!(render("[?1234]"), Err(ColorError::MalformedNumericCode("?1234".to_string())));
}

#[test]
fn malformed_hex_codes_fail() {
    assert_eq!(render("[#12345]"), Err(ColorError::MalformedHexCode("#12345".to_string())));
    assert_eq!(render("[#12345g]"), Err(ColorError::MalformedHexCode("#12345g".to_string())));
    assert_eq!(render("[?#12]"), Err(ColorError::MalformedHexCode("?#12".to_string())));
    assert_eq!(render("[#]"), Err(ColorError::MalformedHexCode("#".to_string())));
}

#[test]
fn source_must_start_with_a_literal() {
    assert_eq!(colorize("abc"), Err(ColorError::MissingLiteralDelimiter));
    assert_eq!(colorize(""), Err(ColorError::MissingLiteralDelimiter));
    assert!(scan("x\"[b]\"").is_err());
}

#[test]
fn end_to_end_scenarios() {
    assert_eq!(
        ok("[bold|cyan]Hello world[magenta]!"),
        "\x1b[1;36mHello world\x1b[35m!\x1b[0m"
    );
    assert_eq!(
        ok("H[!]E[:]L[!]L[:]L[!]O[:]"),
        "H\x1b[7mE\x1b[0mL\x1b[7mL\x1b[0mL\x1b[7mO\x1b[0m\x1b[0m"
    );
}

#[test]
fn arguments_are_not_markup() {
    let parts = scan("\"{}I am not bold!\", \"[bold]\"").expect("valid");
    assert_eq!(parts.text, "{}I am not bold!\x1b[0m");
    assert_eq!(parts.args, ", \"[bold]\"");
    let parts = scan("\"a\\\"[b]\\\\\"[u]").expect("valid");
    assert_eq!(parts.text, "a\\\"\x1b[1m\\\\\x1b[0m");
    assert_eq!(parts.args, "[u]");
    let parts = scan("\"[b]x\"").expect("valid");
    assert_eq!(parts.args, "");
}

#[test]
fn reset_prefix_and_empty_tokens() {
    assert_eq!(ok("[b]x[:u]y"), "\x1b[1mx\x1b[0m\x1b[4my\x1b[0m");
    assert_eq!(ok("[b||u]x"), "\x1b[1;4mx\x1b[0m");
    assert_eq!(ok("[]x"), "x\x1b[0m");
}

#[test]
fn builder_coalesces_codes() {
    let mut s = ColorString::new(8);
    s.push('a');
    s.add("1");
    s.add("31");
    s.push('b');
    s.next();
    s.next();
    s.add("4");
    s.raw("\x1b[5m");
    s.push('c');
    assert_eq!(s.view(), "ab\x1b[1;31m\x1b[4m\x1b[5mc");
}

#[test]
fn parse_applies_one_expression() {
    let mut s = ColorString::new(0);
    assert_eq!(parse("b|#ff0080", &mut s), Ok(()));
    assert_eq!(s.text, "\x1b[1;38;2;255;0;128m");
    assert_eq!(s.next, "");
    let mut s = ColorString::new(0);
    s.add("1");
    assert_eq!(parse(":i", &mut s), Ok(()));
    assert_eq!(s.text, "\x1b[1m\x1b[0m\x1b[3m");
    let mut s = ColorString::new(0);
    assert_eq!(parse("b|nope", &mut s), Err(ColorError::UnknownModifier("nope".to_string())));
}

#[test]
fn tokens_resolve_one_at_a_time() {
    let mut s = ColorString::new(0);
    assert_eq!(resolve_token("green", &mut s), Ok(()));
    assert_eq!(resolve_token("?#0000ff", &mut s), Ok(()));
    assert_eq!(s.next, "32;48;2;0;0;255");
    assert_eq!(s.text, "");
}
