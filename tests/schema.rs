use myway::logging::{log_event, log_request};
use myway::names::rust_name;
use myway::schema::{
    attribute, build_protocol, request_table, ArgType, SchemaErrorKind, XmlAttr, XmlKind, XmlNode,
};

fn convert(node: roxmltree::Node) -> XmlNode {
    let kind = if node.is_element() {
        XmlKind::Element
    } else if node.is_text() {
        XmlKind::Text
    } else if node.is_comment() {
        XmlKind::Comment
    } else if node.is_root() {
        XmlKind::Element
    } else {
        XmlKind::Other
    };
    let range = node.range();
    XmlNode {
        kind,
        tag: node.tag_name().name().to_string(),
        attrs: node
            .attributes()
            .map(|a| XmlAttr { name: a.name().to_string(), value: a.value().to_string() })
            .collect(),
        text: node.text().map(|t| t.to_string()),
        start: range.start,
        end: range.end,
        children: node.children().map(convert).collect(),
    }
}

fn parse(xml: &str) -> XmlNode {
    let doc = roxmltree::Document::parse(xml).unwrap();
    convert(doc.root())
}

const SAMPLE: &str = r#"<?xml version="1.0"?>
<protocol name="sample">
  <copyright>  Copyright text  </copyright>
  <!-- a comment -->
  <interface name="wl_registry" version="1">
    <description summary="global registry">The registry.</description>
    <request name="bind">
      <arg name="name" type="uint"/>
      <arg name="id" type="new_id"/>
    </request>
    <request name="other" type="destructor" since="2"/>
    <event name="global">
      <arg name="name" type="uint"/>
      <arg name="interface" type="string"/>
      <arg name="version" type="uint"/>
    </event>
    <enum name="mode" bitfield="true">
      <entry name="one" value="1"/>
      <entry name="big" value="0x10" summary="hex"/>
    </enum>
  </interface>
</protocol>"#;

#[test]
fn protocol_reads_and_injects_new_id_args() {
    let protocol = build_protocol(&parse(SAMPLE)).ok().unwrap();
    assert_eq!(protocol.name, "sample");
    assert_eq!(protocol.copyright.as_deref(), Some("Copyright text"));
    let iface = &protocol.interfaces[0];
    assert_eq!(iface.name, "wl_registry");
    assert_eq!(iface.version, 1);
    assert_eq!(iface.desc.as_ref().unwrap().description, "The registry.");
    let bind = &iface.requests[0];
    let names: Vec<&str> = bind.args.iter().map(|a| a.name.as_str()).collect();
    assert_eq!(names, vec!["name", "interface", "version", "id"]);
    assert!(matches!(bind.args[1].ty, ArgType::Str { nullable: false }));
    assert!(matches!(bind.args[2].ty, ArgType::Uint { enum_ref: None }));
    assert!(matches!(bind.args[3].ty, ArgType::NewId { interface: None }));
    assert_eq!(iface.requests[1].kind.as_deref(), Some("destructor"));
    assert_eq!(iface.requests[1].since, Some(2));
    let entries = &iface.enums[0].entries;
    assert!(iface.enums[0].bitfield);
    assert_eq!((entries[0].value, entries[0].value_is_hex), (1, false));
    assert_eq!((entries[1].value, entries[1].value_is_hex), (16, true));
}

#[test]
fn dispatch_table_follows_request_order() {
    let protocol = build_protocol(&parse(SAMPLE)).ok().unwrap();
    assert_eq!(request_table(&protocol.interfaces[0]), vec!["bind".to_string(), "other".to_string()]);
}

fn schema_error(xml: &str) -> SchemaErrorKind {
    build_protocol(&parse(xml)).err().unwrap().kind
}

#[test]
fn schema_errors() {
    assert_eq!(schema_error(r#"<protocol name="p" extra="x"/>"#), SchemaErrorKind::UnknownAttribute);
    assert_eq!(schema_error(r#"<protocol/>"#), SchemaErrorKind::MissingAttribute);
    assert_eq!(schema_error(r#"<protocol name="p">text</protocol>"#), SchemaErrorKind::StrayText);
    assert_eq!(schema_error(r#"<protocol name="p"><interface name="i" version="0"/></protocol>"#), SchemaErrorKind::BadValue);
    assert_eq!(
        schema_error(r#"<protocol name="p"><interface name="i" version="1"><request name="r"><arg name="a" type="fd" allow-null="true"/></request></interface></protocol>"#),
        SchemaErrorKind::BadArgType
    );
    assert_eq!(schema_error(r#"<other name="p"/>"#), SchemaErrorKind::UnexpectedElement);
}

#[test]
fn duplicate_attribute_is_refused() {
    let mut root = parse(r#"<protocol name="p"/>"#);
    root.children[0].attrs.push(XmlAttr { name: "name".to_string(), value: "q".to_string() });
    let err = build_protocol(&root).err().unwrap();
    assert_eq!(err.kind, SchemaErrorKind::DuplicateAttribute);
    assert_eq!(attribute(&root.children[0], "name"), Some("p".to_string()));
}

#[test]
fn generated_names() {
    assert_eq!(rust_name("wl_output"), Some("WlOutput".to_string()));
    assert_eq!(rust_name("90"), Some("_90".to_string()));
    assert_eq!(rust_name("wl_output.transform"), Some("super::wl_output::Transform".to_string()));
    assert_eq!(rust_name("bad__name"), None);
}

#[test]
fn trace_lines() {
    let mut line = log_request(1_234_567, "wl_display", "sync", 1);
    line.arg_new_id(Some("wl_callback"), 2);
    assert_eq!(line.finish(), "[   1234.567] wl_display@1.sync(new id wl_callback@2)\n");
    let mut line = log_event(5_002, "wl_callback", "done", 2);
    line.arg_uint(0);
    line.arg_nil();
    line.arg_array(3);
    line.arg_fd(7);
    line.arg_object(None, 4);
    assert_eq!(line.finish(), "[      5.002] → wl_callback@2.done(0, nil, array[3], fd 7, [unknown]@4)\n");
    assert_eq!(log_request(0, "a", "b", 1).finish(), "[      0.000] a@1.b()\n");
}

#[test]
fn entry_values_and_element_order() {
    let xml = r#"<protocol name="p"><interface name="i" version="2">
      <event name="e1"/><request name="r1"/><enum name="n"><entry name="a" value="0x1f"/><entry name="b" value="31"/></enum><request name="r2"/><event name="e2"/>
    </interface></protocol>"#;
    let protocol = build_protocol(&parse(xml)).ok().unwrap();
    let iface = &protocol.interfaces[0];
    let requests: Vec<&str> = iface.requests.iter().map(|m| m.name.as_str()).collect();
    let events: Vec<&str> = iface.events.iter().map(|m| m.name.as_str()).collect();
    assert_eq!(requests, vec!["r1", "r2"]);
    assert_eq!(events, vec!["e1", "e2"]);
    let entries = &iface.enums[0].entries;
    assert_eq!((entries[0].value, entries[0].value_is_hex), (31, true));
    assert_eq!((entries[1].value, entries[1].value_is_hex), (31, false));
    let bad = r#"<protocol name="p"><interface name="i" version="1"><enum name="n"><entry name="a" value="x1"/></enum></interface></protocol>"#;
    assert_eq!(schema_error(bad), SchemaErrorKind::BadValue);
}

#[test]
fn stray_text_carries_its_range() {
    let xml = r#"<protocol name="p">oops</protocol>"#;
    let err = build_protocol(&parse(xml)).err().unwrap();
    assert_eq!(err.kind, SchemaErrorKind::StrayText);
    assert_eq!(&xml[err.start..err.end], "oops");
}

#[test]
fn trace_toggle_values() {
    assert!(myway::logging::trace_enabled(Some("1")));
    assert!(myway::logging::trace_enabled(Some("server")));
    assert!(!myway::logging::trace_enabled(Some("client")));
    assert!(!myway::logging::trace_enabled(None));
}
