use universal_devops_converter::xml::{XmlWriter, attr, attr_number, escape};

#[test]
fn escapes_markup_and_drops_control_characters() {
    assert_eq!(escape("a<b>&\"c\'"), "a&lt;b&gt;&amp;&quot;c&apos;");
    assert_eq!(
        escape("keep\ttabs\nand\rnewlines"),
        "keep\ttabs\nand\rnewlines"
    );
    assert_eq!(escape("bell\u{7}here"), "bellhere");
}

#[test]
fn writes_indented_elements() {
    let mut writer = XmlWriter::new();
    writer.declaration();
    writer.open("root", &vec![attr_number("n", 1)]);
    writer.empty("leaf", &vec![attr("v", "x")]);
    writer.close("root");
    assert_eq!(
        writer.finish(),
        "<?xml version=\"1.0\" encoding=\"UTF-8\"?>\n<root n=\"1\">\n  <leaf v=\"x\"/>\n</root>\n"
    );
}

fn undo(text: &str) -> String {
    text.replace("&lt;", "<")
        .replace("&gt;", ">")
        .replace("&quot;", "\"")
        .replace("&apos;", "'")
        .replace("&amp;", "&")
}

#[test]
fn undoing_the_escapes_gives_the_text_back() {
    let text = "a<b> &amp; \"c\" 'd' &lt é\u{1F600}\t\n";
    assert_eq!(undo(&escape(text)), text);
    assert_eq!(undo(&escape("x\u{0}y\u{fffe}z")), "xyz");
}

#[test]
fn what_is_escaped_in_parts_is_escaped_as_a_whole() {
    let (left, right) = ("a&", "<b\u{7}'");
    assert_eq!(
        escape(&format!("{left}{right}")),
        format!("{}{}", escape(left), escape(right))
    );
}
