use fancy::expand::{colorize, eprintcol, eprintcoln, printcol, printcoln};

fn expands(grammar: &str) -> String {
    colorize(grammar).expect("the markup is valid")
}

#[test]
fn format() {
    assert_eq!(expands("\"[b]Hi [u]there!\""), "\"\x1b[1mHi \x1b[4mthere!\x1b[0m\"");

    let g = "\"[bold|magenta]\\\"Hello world!\\\"\"";
    assert_eq!(printcoln(g), format!("::fancy::printcol!({}); ::std::println!()", g));
    assert_eq!(expands(g), "\"\x1b[1;35m\\\"Hello world!\\\"\x1b[0m\"");

    assert_eq!(
        expands("\"[bold|cyan]Hello world[magenta]!\""),
        "\"\x1b[1;36mHello world\x1b[35m!\x1b[0m\""
    );
    assert_eq!(
        expands("\"[b|#7cd615]space[#c1973c]space!\""),
        "\"\x1b[1;38;2;124;214;21mspace\x1b[38;2;193;151;60mspace!\x1b[0m\""
    );
    assert_eq!(
        expands("\"H[!]E[:]L[!]L[:]L[!]O[:]\""),
        "\"H\x1b[7mE\x1b[0mL\x1b[7mL\x1b[0mL\x1b[7mO\x1b[0m\x1b[0m\""
    );
    assert_eq!(
        expands("\"[b|u|#babaf1]rust[:] is [!]{}\", \"cool\""),
        "format!(\"\x1b[1;4;38;2;186;186;241mrust\x1b[0m is \x1b[7m{}\x1b[0m\", \"cool\")"
    );

    let g = "\"{}I am not bold!\\n\", \"[bold]\"";
    assert_eq!(printcol(g), format!("::std::print!(\"{{}}\", ::fancy::colorize!({}));", g));
    assert_eq!(expands(g), "format!(\"{}I am not bold!\\n\x1b[0m\", \"[bold]\")");

    assert_eq!(
        expands("\"{}, i am {:?} years old!\\n\", \"Hello\", 16"),
        "format!(\"{}, i am {:?} years old!\\n\x1b[0m\", \"Hello\", 16)"
    );
    assert_eq!(
        expands("\"I am [[ -- [[escaped]] -- ]]!\\n\""),
        "\"I am [ -- [escaped] -- ]!\\n\x1b[0m\""
    );
    assert_eq!(
        expands("\"I am triple [[[[ -- [[escaped]] -- ]]]]!\\n\""),
        "\"I am triple [[ -- [escaped] -- ]]!\\n\x1b[0m\""
    );

    assert_eq!(expands("\"[b|blue]Hi!\""), "\"\x1b[1;34mHi!\x1b[0m\"");
    assert_eq!(
        expands("\"[u|red]error[:]: invalid keyword \\\"data\\\"\""),
        "\"\x1b[4;31merror\x1b[0m: invalid keyword \\\"data\\\"\x1b[0m\""
    );
}

#[test]
fn print_expansions() {
    let g = "\"[b]x{}\", 1";
    assert_eq!(printcol(g), "::std::print!(\"{}\", ::fancy::colorize!(\"[b]x{}\", 1));");
    assert_eq!(eprintcol(g), "::std::eprint!(\"{}\", ::fancy::colorize!(\"[b]x{}\", 1));");
    assert_eq!(printcoln(g), "::fancy::printcol!(\"[b]x{}\", 1); ::std::println!()");
    assert_eq!(eprintcoln(g), "::fancy::eprintcol!(\"[b]x{}\", 1); ::std::eprintln!()");
}
