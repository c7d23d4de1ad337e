use myway::codegen::{arg_type, emit_any_object, emit_enum, emit_protocol, emit_request_handler, impl_of, TypePosition};
use myway::schema::{Arg, ArgType, Description, Entry, Enum, Interface, Message, Protocol};

fn arg(name: &str, ty: ArgType) -> Arg {
    Arg { name: name.to_string(), ty, summary: None }
}

fn message(name: &str, kind: Option<&str>, args: Vec<Arg>) -> Message {
    Message { name: name.to_string(), kind: kind.map(str::to_string), since: None, desc: None, args }
}

fn entry(name: &str, value: u32, hex: bool) -> Entry {
    Entry { name: name.to_string(), value, value_is_hex: hex, summary: None, since: None }
}

fn shm_pool() -> Interface {
    Interface {
        name: "wl_shm_pool".to_string(),
        version: 1,
        desc: None,
        requests: vec![
            message(
                "create_buffer",
                None,
                vec![
                    arg("id", ArgType::NewId { interface: Some("wl_buffer".to_string()) }),
                    arg("offset", ArgType::Int),
                    arg("format", ArgType::Uint { enum_ref: Some("wl_shm.format".to_string()) }),
                ],
            ),
            message("destroy", Some("destructor"), vec![]),
        ],
        events: vec![message("done", None, vec![arg("serial", ArgType::Uint { enum_ref: None })])],
        enums: vec![Enum {
            name: "error".to_string(),
            since: None,
            bitfield: false,
            desc: None,
            entries: vec![entry("invalid_format", 0, false), entry("big", 255, true)],
        }],
    }
}

#[test]
fn implementation_types() {
    assert_eq!(impl_of("wl_shm"), Some("crate::object_impls::ShmGlobal"));
    assert_eq!(impl_of("xdg_wm_base"), None);
}

#[test]
fn argument_types_by_position() {
    let new_buffer = ArgType::NewId { interface: Some("wl_buffer".to_string()) };
    assert_eq!(arg_type(&new_buffer, TypePosition::Handler).unwrap(), "VacantEntry<'_, crate::object_impls::ShmBuffer>");
    assert_eq!(arg_type(&new_buffer, TypePosition::Event).unwrap(), "Id<crate::object_impls::ShmBuffer>");
    assert_eq!(arg_type(&new_buffer, TypePosition::RawProtocol).unwrap(), "Id<AnyObject>");
    let nullable = ArgType::Object { interface: None, nullable: true };
    assert_eq!(arg_type(&nullable, TypePosition::Handler).unwrap(), "Option<OccupiedEntry<'_, AnyObject>>");
    let format = ArgType::Uint { enum_ref: Some("wl_shm.format".to_string()) };
    assert_eq!(arg_type(&format, TypePosition::Handler).unwrap(), "super::wl_shm::Format");
    assert_eq!(arg_type(&ArgType::Str { nullable: true }, TypePosition::Event).unwrap(), "Option<&str>");
}

#[test]
fn enum_keeps_hex_rendering() {
    let text = emit_enum(&shm_pool().enums[0]).unwrap();
    assert!(text.contains("\tpub enum Error {\n\t\tInvalidFormat = 0,\n\t\tBig = 0xff,\n\t}\n"));
    assert!(text.contains("\t\t\t\t255 => Ok(Self::Big),\n"));
    assert!(text.contains("\"invalid Error\""));
}

#[test]
fn request_handler_has_one_arm_per_opcode() {
    let text = emit_request_handler(&shm_pool()).unwrap();
    let first = text.find("\t\t\t\t0 => {\n").unwrap();
    let second = text.find("\t\t\t\t1 => {\n").unwrap();
    assert!(first < second);
    assert!(text.contains("let id = <Id<AnyObject>>::decode_arg(&mut message)?;\n"));
    assert!(text.contains("let [this, id] = objects.get_many_mut([self_id, id])?;\n"));
    assert!(text.contains("let id = id.into_vacant()?.downcast();\n"));
    assert!(text.contains("this.handle_create_buffer(client, id, offset, format, )\n"));
    assert!(text.contains("this.take().handle_destroy(client, )\n"));
}

#[test]
fn protocol_modules_and_sum() {
    let protocol = Protocol { name: "p".to_string(), copyright: None, desc: None, interfaces: vec![shm_pool()] };
    let text = emit_protocol(&protocol).unwrap();
    assert!(text.starts_with("use crate::{client::{RecvMessage, SendHalf}, object_map::{Object, Objects}};\nuse super::Id;\npub mod wl_shm_pool {\n"));
    assert!(text.contains("\tpub trait WlShmPool: Sized {\n"));
    assert!(text.contains("\t\tfn handle_destroy(self, client: &mut SendHalf<'_>, ) -> Result<()>;\n"));
    assert!(text.contains("\timpl crate::object_impls::ShmPool where Self: WlShmPool {\n"));
    assert!(text.contains("\t\tpub const VERSION: u32 = 1;\n"));
    assert!(text.contains("let mut event = client.submit(self_id.cast(), 0, len as usize, fds)?;\n"));
    let sum = emit_any_object();
    assert!(sum.contains("\tRegion(crate::object_impls::Region),\n"));
    assert!(sum.contains("\t\t\tSelf::Display(_) => crate::object_impls::Display::handle_request,\n"));
    assert_eq!(sum.matches("impl Object for ").count(), 9);
}

#[test]
fn bad_enum_name_fails_emission() {
    let mut iface = shm_pool();
    iface.enums[0].entries.push(entry("bad__name", 1, false));
    assert!(emit_enum(&iface.enums[0]).is_none());
}

#[test]
fn trace_code_for_messages() {
    let iface = shm_pool();
    let text = emit_request_handler(&iface).unwrap();
    assert!(text.contains("\t\t\tif let Some(mut log) = crate::logging::log_request(Self::INTERFACE, \"create_buffer\", self_id.into()) {\n"));
    assert!(text.contains("\t\t\t\tlog.arg_new_id(Some(\"wl_buffer\"), id.into());\n"));
    assert!(text.contains("\t\t\t\tlog.arg_debug(format as u32);\n"));
    assert!(text.contains("\t\t\t\tlog.finish();\n"));
}

#[test]
fn comment_blocks() {
    let text = myway::codegen::write_multiline("// ", "//", &["  Line one\r\n\n  two  ", "", "three\n"]);
    assert_eq!(text, "// Line one\n//\n// two\n//\n// three\n");
    assert_eq!(myway::codegen::write_multiline("// ", "//", &["", ""]), "");
    let lines = myway::codegen::lines_of("a\n\nb\n");
    assert_eq!(lines, vec!["a".to_string(), String::new(), "b".to_string()]);
}

#[test]
fn protocol_comments() {
    let protocol = Protocol {
        name: "p".to_string(),
        copyright: Some("Copyright text\nsecond line".to_string()),
        desc: None,
        interfaces: vec![],
    };
    let text = emit_protocol(&protocol).unwrap();
    assert!(text.starts_with("// Copyright of the protocol specification:\n// > Copyright text\n// > second line\nuse crate::"));
}

#[test]
fn handler_docs_list_arguments() {
    let mut iface = shm_pool();
    iface.desc = Some(Description { summary: "a pool".to_string(), description: "Shared memory.".to_string() });
    iface.requests[1].desc = Some(Description { summary: "destroy the pool".to_string(), description: String::new() });
    iface.requests[0].args[1].summary = Some("byte offset".to_string());
    iface.enums[0].entries[0].summary = Some("bad format".to_string());
    let protocol = Protocol { name: "p".to_string(), copyright: None, desc: None, interfaces: vec![iface] };
    let text = emit_protocol(&protocol).unwrap();
    assert!(text.contains("/// a pool\n///\n/// Shared memory.\npub mod wl_shm_pool {\n"));
    assert!(text.contains("\t\t/// # Request Arguments\n\t\t///\n\t\t/// - `id`: (no summary available)\n\t\t/// - `offset`: byte offset\n"));
    assert!(text.contains("\t\t/// destroy the pool\n\t\t///\n\t\t/// # Request Arguments\n\t\t///\n\t\tfn handle_destroy(self, "));
    assert!(text.contains("\t\t/// bad format\n\t\tInvalidFormat = 0,\n"));
}
