use export_logseq_notes::parse_string::{attribute, parse, ContentStyle, Expression};
use export_logseq_notes::parse_string::Expression::{
    Bold, BraceDirective, Hashtag, RawHyperlink, Table, Text,
};

fn s(v: &str) -> String {
    v.to_string()
}

fn test_parse_all_styles(input: &str, expected: Vec<Expression>) {
    assert_eq!(parse(ContentStyle::Roam, input).unwrap(), expected, "roam style");
    assert_eq!(parse(ContentStyle::Logseq, input).unwrap(), expected, "logseq style");
}

#[test]
fn word() {
    let input = "word";
    test_parse_all_styles(input, vec![Expression::Text(s("word"))]);
}

#[test]
fn words() {
    let input = "two words";
    test_parse_all_styles(input, vec![Expression::Text(s("two words"))]);
}

#[test]
fn surrounding_whitespace() {
    let input = "  two words  ";
    test_parse_all_styles(input, vec![Expression::Text(s("  two words  "))])
}

#[test]
fn block_ref() {
    let input = "((a ref))";
    test_parse_all_styles(input, vec![Expression::BlockRef(s("a ref"))])
}

#[test]
fn link() {
    let input = "[[a title]]";
    test_parse_all_styles(input, vec![Expression::Link(s("a title"))])
}

#[test]
fn hashtag_simple() {
    let input = "#tag";
    test_parse_all_styles(input, vec![Hashtag(s("tag"), false)])
}

#[test]
fn hashtag_with_link() {
    let input = "#[[a tag]]";
    test_parse_all_styles(input, vec![Expression::Hashtag(s("a tag"), false)])
}

#[test]
fn hashtag_with_dot() {
    let input = "#.tag";
    test_parse_all_styles(input, vec![Expression::Hashtag(s("tag"), true)])
}

#[test]
fn other_brace() {
    let input = "{{ something-else }}";
    test_parse_all_styles(input, vec![Expression::BraceDirective(s("something-else"))])
}

#[test]
fn table_brace() {
    let input = "{{ table }}";
    test_parse_all_styles(input, vec![Table]);
}

#[test]
fn hashtag_brace() {
    // This isn't valid in Roam, so it doesn't parse out the hashtag.
    let input = "{{ #table}}";
    test_parse_all_styles(input, vec![Expression::BraceDirective(s("#table"))])
}

#[test]
fn link_with_enclosed_bracket() {
    let input = "[[ab[cd]ef]]";
    test_parse_all_styles(input, vec![Expression::Link(s("ab[cd]ef"))])
}

#[test]
fn table_link_brace() {
    let input = "{{[[table]]}}";
    test_parse_all_styles(input, vec![Table])
}

#[test]
fn other_link_brace() {
    let input = "{{[[something-else]]}}";
    test_parse_all_styles(input, vec![BraceDirective(s("something-else"))])
}

#[test]
fn multiword_with_links() {
    let input = "I want an [[astrolabe]] of my own";
    test_parse_all_styles(
        input,
        vec![
            Expression::Text(s("I want an ")),
            Expression::Link(s("astrolabe")),
            Expression::Text(s(" of my own")),
        ],
    )
}

#[test]
fn single_brace() {
    let input = "this is not [a brace ] but [[this is]]";
    test_parse_all_styles(
        input,
        vec![
            Expression::Text(s("this is not [a brace ] but ")),
            Expression::Link(s("this is")),
        ],
    )
}

#[test]
fn single_bracket() {
    let input = "this is not {a bracket } but [[this is a]]link";
    test_parse_all_styles(
        input,
        vec![
            Expression::Text(s("this is not {a bracket } but ")),
            Expression::Link(s("this is a")),
            Expression::Text(s("link")),
        ],
    )
}

#[test]
fn roam_fake_bold() {
    let input = "this is *not* bold or italic";
    assert_eq!(
        parse(ContentStyle::Roam, input).unwrap(),
        vec![Text(s("this is *not* bold or italic"))]
    );
}

#[test]
fn image() {
    let input =
        "![](https://firebasestorage.googleapis.com/v0/b/firescript-577a2.appspot.com/o/some-id?abc)";
    test_parse_all_styles(
        input,
        vec![Expression::Image {
            alt: s(""),
            url: s("https://firebasestorage.googleapis.com/v0/b/firescript-577a2.appspot.com/o/some-id?abc"),
        }],
    )
}

#[test]
fn image_with_alt() {
    let input =
        "![some alt text](https://firebasestorage.googleapis.com/v0/b/firescript-577a2.appspot.com/o/some-id?abc)";
    test_parse_all_styles(
        input,
        vec![Expression::Image {
            alt: s("some alt text"),
            url: s("https://firebasestorage.googleapis.com/v0/b/firescript-577a2.appspot.com/o/some-id?abc"),
        }],
    )
}

#[test]
fn real_world_1() {
    let input = r##"An initially \"honest\" signal becomes dishonest."##;
    test_parse_all_styles(
        input,
        vec![Expression::Text(s(r##"An initially \"honest\" signal becomes dishonest."##))],
    )
}

#[test]
fn plaintext_link() {
    let input = r##"Source: https://a.website.com/is-post"##;
    test_parse_all_styles(
        input,
        vec![Expression::Text(s(r##"Source: "##)), RawHyperlink(s("https://a.website.com/is-post"))],
    )
}

#[test]
fn plaintext_link_entire_string() {
    let input = "https://www.example.com/def/ghi?abc=def#an-anchor";
    test_parse_all_styles(input, vec![Expression::RawHyperlink(s(input))]);
}

#[test]
fn plaintext_link_omits_trailing_character() {
    let input = "at https://www.example.com/def.";
    test_parse_all_styles(
        input,
        vec![Text(s("at ")), RawHyperlink(s("https://www.example.com/def")), Text(s("."))],
    );
}

#[test]
fn plaintext_link_omits_trailing_character2() {
    let input = "at https://www.example.com/def/ghi?abc=def#an-anchor.";
    test_parse_all_styles(
        input,
        vec![
            Text(s("at ")),
            RawHyperlink(s("https://www.example.com/def/ghi?abc=def#an-anchor")),
            Text(s(".")),
        ],
    );
}

#[test]
fn markdown_link() {
    let input =
        r##"For actually communicating, [spiped](https://www.tarsnap.com/spiped.html) is nice"##;
    test_parse_all_styles(
        input,
        vec![
            Expression::Text(s("For actually communicating, ")),
            Expression::MarkdownExternalLink {
                title: s("spiped"),
                url: s("https://www.tarsnap.com/spiped.html"),
            },
            Expression::Text(s(" is nice")),
        ],
    )
}

#[test]
fn markdown_link_with_embedded_parens() {
    let input =
        r##"For actually communicating, [spiped](https://www.tarsnap.com/sp(i)ped.html) is nice"##;
    test_parse_all_styles(
        input,
        vec![
            Expression::Text(s("For actually communicating, ")),
            Expression::MarkdownExternalLink {
                title: s("spiped"),
                url: s("https://www.tarsnap.com/sp(i)ped.html"),
            },
            Expression::Text(s(" is nice")),
        ],
    )
}

#[test]
fn attribute_simple() {
    let input = "Source:: some blog";
    test_parse_all_styles(
        input,
        vec![Expression::Attribute {
            name: s("Source"),
            value: vec![Expression::Text(s("some blog"))],
        }],
    )
}

#[test]
fn attribute_nospace() {
    let input = "Source::some blog";
    assert_eq!(
        parse(ContentStyle::Roam, input).unwrap(),
        vec![Expression::Attribute {
            name: s("Source"),
            value: vec![Expression::Text(s("some blog"))],
        }],
    )
}

#[test]
fn roam_attribute_complex() {
    let input = " My Score:: too [[high]] to count";
    assert_eq!(
        parse(ContentStyle::Roam, input).unwrap(),
        vec![Expression::Attribute {
            name: s(" My Score"),
            value: vec![
                Expression::Text(s("too ")),
                Expression::Link(s("high")),
                Expression::Text(s(" to count")),
            ],
        }],
    )
}

#[test]
fn roam_attribute_extra_colons() {
    let input = " My Score::: too :: high :: to count";
    assert_eq!(
        parse(ContentStyle::Roam, input).unwrap(),
        vec![Expression::Attribute {
            name: s(" My Score"),
            value: vec![Expression::Text(s(": too :: high :: to count"))],
        }],
    )
}

#[test]
fn isolated_attribute() {
    let input = "completed:: true";
    assert_eq!(
        attribute(ContentStyle::Logseq, input).unwrap(),
        (s(""), (s("completed"), vec![Expression::Text(s("true"))],)),
    )
}

#[test]
fn logseq_attribute_and_text_in_block() {
    let input = "Some text\n   completed:: true";
    assert_eq!(
        parse(ContentStyle::Logseq, input).unwrap(),
        vec![
            Expression::Text(s("Some text")),
            Expression::Attribute {
                name: s("completed"),
                value: vec![Expression::Text(s("true"))],
            },
        ],
    )
}

#[test]
fn logseq_colons_in_attribute_value() {
    let input = "completed:: true:: false";
    assert_eq!(
        attribute(ContentStyle::Logseq, input).unwrap(),
        (s(""), (s("completed"), vec![Expression::Text(s("true:: false"))],)),
    )
}

#[test]
fn roam_attribute_backticks_1() {
    // Do not parse it as an attribute if the :: is inside backticks
    let input = " My Score ` :: too [[high]] to count`";
    assert_eq!(
        parse(ContentStyle::Roam, input).unwrap(),
        vec![
            Expression::Text(s(" My Score ")),
            Expression::SingleBacktick(s(" :: too [[high]] to count")),
        ],
    )
}

#[test]
fn roam_attribute_backticks_2() {
    let input = "My `Score`:: too [[high]] to count";
    assert_eq!(
        parse(ContentStyle::Roam, input).unwrap(),
        vec![
            Expression::Text(s("My ")),
            Expression::SingleBacktick(s("Score")),
            Expression::Text(s(":: too ")),
            Expression::Link(s("high")),
            Expression::Text(s(" to count")),
        ],
    )
}

#[test]
fn exclamation_point() {
    let input = "This is exciting!";
    test_parse_all_styles(input, vec![Text(s("This is exciting!"))]);
}

#[test]
fn real_world_2() {
    let input = "Added support for switchable transition styles to [[svelte-zoomable]]";
    test_parse_all_styles(
        input,
        vec![
            Expression::Text(s("Added support for switchable transition styles to ")),
            Expression::Link(s("svelte-zoomable")),
        ],
    )
}

#[test]
fn real_world_3() {
    let input = "Include `hostnames;` inside the block to let it do wildcard matches on hostnames.";
    test_parse_all_styles(
        input,
        vec![
            Expression::Text(s("Include ")),
            Expression::SingleBacktick(s("hostnames;")),
            Expression::Text(s(" inside the block to let it do wildcard matches on hostnames.")),
        ],
    )
}

#[test]
fn real_world_4() {
    let input = r##"**Algorithm - Difference Engine** #roam/templates"##;
    test_parse_all_styles(
        input,
        vec![
            Bold(vec![Text(s("Algorithm - Difference Engine"))]),
            Text(s(" ")),
            Hashtag(s("roam/templates"), false),
        ],
    )
}

#[test]
fn real_world_5() {
    let input = r##"{{[[TODO]]}} [[Projects/Rewrite everything]]"##;
    assert_eq!(
        parse(ContentStyle::Roam, input).unwrap(),
        vec![
            Expression::Todo { done: false },
            Expression::Text(s(" ")),
            Expression::Link(s("Projects/Rewrite everything")),
        ],
    )
}

#[test]
fn real_world_6() {
    let input = r##"{{[[TODO]]}}[[Projects/Rewrite everything]]"##;
    assert_eq!(
        parse(ContentStyle::Roam, input).unwrap(),
        vec![Expression::Todo { done: false }, Expression::Link(s("Projects/Rewrite everything"))],
    );
}

#[test]
fn real_world_7() {
    let input =
        r##"([Location 1062](https://readwise.io/to_kindle?action=open&asin=2232&location=1062))"##;
    test_parse_all_styles(
        input,
        vec![
            Expression::Text(s("(")),
            Expression::MarkdownExternalLink {
                title: s("Location 1062"),
                url: s("https://readwise.io/to_kindle?action=open&asin=2232&location=1062"),
            },
            Expression::Text(s(")")),
        ],
    )
}

#[test]
fn real_world_8() {
    let input = r##"--- **John 13:18-30 - Judas and Jesus** ---"##;
    test_parse_all_styles(
        input,
        vec![
            Text(s("--- ")),
            Bold(vec![Text(s("John 13:18-30 - Judas and Jesus"))]),
            Text(s(" ---")),
        ],
    )
}

#[test]
fn triple_backtick_1() {
    let input = r##"```javascript\nmap $regex_domain $domain {\n  app defaultskin;\n  tm defaultskin;\n  www defaultskin;\n  '' defaultskin;\n  dev defaultskin;\n  default $regex_domain;\n}```"##;
    test_parse_all_styles(
        input,
        vec![Expression::TripleBacktick(s(
            r##"javascript\nmap $regex_domain $domain {\n  app defaultskin;\n  tm defaultskin;\n  www defaultskin;\n  '' defaultskin;\n  dev defaultskin;\n  default $regex_domain;\n}"##,
        ))],
    )
}

#[test]
fn triple_backtick_2() {
    let input = r##"```css\nbackground: #203;\ncolor: #ffc;\ntext-shadow: 0 0 .1em, 0 0 .3em;```"##;
    test_parse_all_styles(
        input,
        vec![Expression::TripleBacktick(s(
            r##"css\nbackground: #203;\ncolor: #ffc;\ntext-shadow: 0 0 .1em, 0 0 .3em;"##,
        ))],
    )
}

#[test]
fn roam_todo() {
    let input = r##"{{[[TODO]]}} Get things done"##;
    assert_eq!(
        parse(ContentStyle::Roam, input).unwrap(),
        vec![Expression::Todo { done: false }, Expression::Text(s(" Get things done"))],
        "roam style works"
    );

    assert_eq!(
        parse(ContentStyle::Logseq, input).unwrap(),
        vec![Expression::BraceDirective(s("TODO")), Expression::Text(s(" Get things done"))],
        "logseq doesn't parse as todo"
    );
}

#[test]
fn logseq_todo() {
    let input = r##"TODO Get things done"##;
    assert_eq!(
        parse(ContentStyle::Logseq, input).unwrap(),
        vec![Expression::Todo { done: false }, Expression::Text(s(" Get things done"))],
    );
}

#[test]
fn logseq_done() {
    let input = r##"DONE Get things done"##;
    assert_eq!(
        parse(ContentStyle::Logseq, input).unwrap(),
        vec![Expression::Todo { done: true }, Expression::Text(s(" Get things done"))],
    );
}

#[test]
fn logseq_todo_must_be_at_start() {
    let input = r##" TODO Get things done"##;
    assert_eq!(
        parse(ContentStyle::Roam, input).unwrap(),
        vec![Expression::Text(s(" TODO Get things done"))],
    );
}

#[test]
fn unicode() {
    let input = r##"client’s merkle tree"##;
    test_parse_all_styles(input, vec![Expression::Text(s("client’s merkle tree"))])
}

#[test]
fn blockquote_simple() {
    let input = r##"> Some text"##;
    test_parse_all_styles(input, vec![Expression::BlockQuote(vec![Expression::Text(s("Some text"))])]);
}

#[test]
fn blockquote_with_nested_styles() {
    let input = r##"> [[Some]] **text**"##;
    test_parse_all_styles(
        input,
        vec![Expression::BlockQuote(vec![
            Expression::Link(s("Some")),
            Expression::Text(s(" ")),
            Expression::Bold(vec![Expression::Text(s("text"))]),
        ])],
    );
}

#[test]
fn blockquote_fake_1() {
    let input = r##" > Some text"##;
    test_parse_all_styles(input, vec![Expression::Text(s(" > Some text"))]);
}

#[test]
fn blockquote_fake_2() {
    let input = r##"Some text
> and another"##;
    test_parse_all_styles(input, vec![Expression::Text(s("Some text\n> and another"))]);
}
