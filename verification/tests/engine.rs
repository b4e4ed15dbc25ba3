use soap_rs::hierarchy::{calculate_supersets, group_fields};
use soap_rs::render::{difference, gen_fields, write_field, write_fields, write_grouped_fields};
use soap_rs::{
    impl_display_action, written, Action, Attr, Data, DisplayAction, Field, Group, Literal,
    Message, Meta, MetaError, MetaForm, Pair, Value,
};

fn group(name: &str) -> Attr {
    Attr::Group(Group::named(name.to_string()))
}

fn numbered(name: &str, id: u128) -> Attr {
    Attr::Group(Group { name: name.to_string(), id: Some(id) })
}

fn field(ident: &str, is_option: bool, attrs: Vec<Attr>) -> Field {
    Field::from_attrs(ident.to_string(), is_option, &attrs)
}

fn record(attrs: Vec<Attr>, fields: Vec<Field>) -> Data {
    Data { attrs, ident: "Record".to_string(), fields }
}

fn ready(attrs: Vec<Attr>, fields: Vec<Field>) -> Action {
    impl_display_action(record(attrs, fields)).expect("the groups nest")
}

fn some(text: &str) -> Option<Value> {
    Some(Value::Text(text.to_string()))
}

#[test]
fn ungrouped_and_grouped_field() {
    let action = ready(
        vec![],
        vec![field("id", false, vec![]), field("name", false, vec![group("Info")])],
    );
    let text = action.format(&vec![some("5"), some("Bob")], "GetUser");
    assert_eq!(text, "<id>5</id><Info><name>Bob</name></Info>");
}

#[test]
fn absent_optional_member_omits_group() {
    let action = ready(
        vec![],
        vec![field("id", false, vec![]), field("name", true, vec![group("Info")])],
    );
    let text = action.format(&vec![some("5"), None], "GetUser");
    assert_eq!(text, "<id>5</id>");
}

#[test]
fn top_group_wraps_body() {
    let action = ready(
        vec![group("Request")],
        vec![field("id", false, vec![]), field("name", false, vec![group("Info")])],
    );
    let text = action.format(&vec![some("5"), some("Bob")], "GetUser");
    assert_eq!(text, "<Request><id>5</id><Info><name>Bob</name></Info></Request>");
}

#[test]
fn top_group_wraps_empty_body() {
    let action = ready(vec![group("Request")], vec![field("name", true, vec![])]);
    assert_eq!(action.format(&vec![None], "GetUser"), "<Request></Request>");
}

#[test]
fn first_group_option_names_the_wrapper() {
    let data = record(
        vec![Attr::Extra("x".to_string()), group("Outer"), group("Other")],
        vec![],
    );
    assert_eq!(data.top_group(), Some("Outer".to_string()));
    assert_eq!(record(vec![Attr::Rename("r".to_string())], vec![]).top_group(), None);
}

#[test]
fn ungrouped_fields_keep_declaration_order() {
    let action = ready(
        vec![],
        vec![
            field("c", false, vec![]),
            field("a", true, vec![]),
            field("b", false, vec![]),
            field("d", true, vec![]),
        ],
    );
    let text = action.format(&vec![some("1"), None, some("2"), some("3")], "");
    assert_eq!(text, "<c>1</c><b>2</b><d>3</d>");
}

#[test]
fn partial_overlap_is_refused() {
    let data = record(
        vec![],
        vec![
            field("a", false, vec![group("G1")]),
            field("b", false, vec![group("G1"), group("G2")]),
            field("c", false, vec![group("G2")]),
        ],
    );
    let err = impl_display_action(data).expect_err("the groups do not nest");
    assert_eq!(err.first, Group::named("G1".to_string()));
    assert_eq!(err.second, Group::named("G2".to_string()));
}

#[test]
fn first_conflict_is_reported() {
    let data = record(
        vec![],
        vec![
            field("a", false, vec![group("Free")]),
            field("b", false, vec![group("X")]),
            field("c", false, vec![group("X"), group("Y"), group("Z")]),
            field("d", false, vec![group("Y"), group("Z")]),
            field("e", false, vec![group("Z")]),
        ],
    );
    let grouped = group_fields(&data.fields);
    let err = calculate_supersets(&grouped).expect_err("X and Y do not nest");
    assert_eq!(err.first.name, "X");
    assert_eq!(err.second.name, "Y");
}

#[test]
fn subset_chain_is_flattened() {
    let fields = vec![
        field("f1", false, vec![group("A"), group("B"), group("C")]),
        field("f2", false, vec![group("A"), group("B")]),
        field("f3", false, vec![group("A")]),
        field("f4", false, vec![group("A")]),
    ];
    let grouped = group_fields(&fields);
    assert_eq!(
        grouped.groups,
        vec![
            Group::named("A".to_string()),
            Group::named("B".to_string()),
            Group::named("C".to_string())
        ]
    );
    assert_eq!(grouped.members[0], vec![true, true, true, true]);
    assert_eq!(grouped.members[1], vec![true, true, false, false]);
    assert_eq!(grouped.members[2], vec![true, false, false, false]);
    assert_eq!(grouped.ungrouped, vec![false, false, false, false]);
    let roots = calculate_supersets(&grouped).expect("the groups nest");
    assert_eq!(roots.len(), 1);
    assert_eq!(roots[0].group, 0);
    assert_eq!(roots[0].subs, vec![1, 2]);
    assert_eq!(roots[0].sub_fields, vec![true, true, false, false]);
}

#[test]
fn subset_chain_is_written_on_one_level() {
    let action = ready(
        vec![],
        vec![
            field("f1", false, vec![group("A"), group("B"), group("C")]),
            field("f2", false, vec![group("A"), group("B")]),
            field("f3", false, vec![group("A")]),
            field("f4", false, vec![group("A")]),
        ],
    );
    let text = action.format(&vec![some("1"), some("2"), some("3"), some("4")], "");
    assert_eq!(
        text,
        "<A><f3>3</f3><f4>4</f4><B><f1>1</f1><f2>2</f2></B><C><f1>1</f1></C></A>"
    );
}

#[test]
fn disjoint_groups_are_roots_in_order_of_first_appearance() {
    let action = ready(
        vec![],
        vec![
            field("x", false, vec![group("Second")]),
            field("y", false, vec![group("First")]),
            field("z", false, vec![group("Second")]),
        ],
    );
    assert_eq!(action.roots.len(), 2);
    let text = action.format(&vec![some("1"), some("2"), some("3")], "");
    assert_eq!(text, "<Second><x>1</x><z>3</z></Second><First><y>2</y></First>");
}

#[test]
fn group_number_tells_groups_of_one_name_apart() {
    let action = ready(
        vec![],
        vec![
            field("x", false, vec![numbered("Item", 1)]),
            field("y", false, vec![numbered("Item", 2)]),
            field("z", false, vec![numbered("Item", 1)]),
        ],
    );
    let text = action.format(&vec![some("1"), some("2"), some("3")], "");
    assert_eq!(text, "<Item><x>1</x><z>3</z></Item><Item><y>2</y></Item>");
    assert!(!Group::named("Item".to_string()).same(&Group { name: "Item".to_string(), id: Some(1) }));
    assert!(Group::named("Item".to_string()).same(&Group::named("Item".to_string())));
    assert!(!Group::named("Item".to_string()).same(&Group::named("Other".to_string())));
}

#[test]
fn group_tag_follows_own_members_only() {
    let action = ready(
        vec![],
        vec![
            field("a", true, vec![group("Outer")]),
            field("b", true, vec![group("Outer"), group("Inner")]),
        ],
    );
    assert_eq!(action.format(&vec![None, None], ""), "");
    assert_eq!(action.format(&vec![some("1"), None], ""), "<Outer><a>1</a></Outer>");
    assert_eq!(
        action.format(&vec![None, some("2")], ""),
        "<Outer><Inner><b>2</b></Inner></Outer>"
    );
    assert_eq!(
        action.format(&vec![some("1"), some("2")], ""),
        "<Outer><a>1</a><Inner><b>2</b></Inner></Outer>"
    );
}

#[test]
fn groups_under_one_superset_must_still_nest() {
    let err = impl_display_action(record(
        vec![],
        vec![
            field("a", false, vec![group("All"), group("Left"), group("Right")]),
            field("b", false, vec![group("All"), group("Left")]),
            field("c", false, vec![group("All"), group("Right")]),
        ],
    ))
    .expect_err("Left and Right share a field and do not nest");
    assert_eq!(err.first.name, "Left");
    assert_eq!(err.second.name, "Right");
}

#[test]
fn field_of_two_inner_groups_is_written_twice() {
    let action = ready(
        vec![],
        vec![
            field("a", false, vec![group("All"), group("Left"), group("Right")]),
            field("b", false, vec![group("All"), group("Left")]),
            field("c", false, vec![group("All")]),
        ],
    );
    assert_eq!(action.roots.len(), 1);
    assert_eq!(
        action.format(&vec![some("1"), some("2"), some("3")], ""),
        "<All><c>3</c><Left><a>1</a><b>2</b></Left><Right><a>1</a></Right></All>"
    );
}

#[test]
fn equal_groups_contain_each_other() {
    let action = ready(
        vec![],
        vec![field("a", false, vec![group("P"), group("Q")])],
    );
    assert_eq!(action.roots.len(), 2);
    assert_eq!(action.roots[0].subs, vec![1]);
    assert_eq!(action.roots[1].subs, vec![0]);
    assert_eq!(
        action.format(&vec![some("1")], ""),
        "<P><Q><a>1</a></Q></P><Q><P><a>1</a></P></Q>"
    );
}

#[test]
fn rename_replaces_the_identifier() {
    let plain = field("user_id", false, vec![]);
    let renamed = field("user_id", false, vec![Attr::Rename("UserId".to_string())]);
    let twice = field(
        "user_id",
        false,
        vec![Attr::Rename("First".to_string()), Attr::Rename("Second".to_string())],
    );
    let mut out = String::new();
    write_field(&mut out, &plain, &some("7"));
    write_field(&mut out, &renamed, &some("7"));
    write_field(&mut out, &twice, &some("7"));
    assert_eq!(out, "<user_id>7</user_id><UserId>7</UserId><First>7</First>");
}

#[test]
fn extras_come_before_the_tag_in_declared_order() {
    let f = field(
        "v",
        true,
        vec![
            Attr::Extra("<one/>".to_string()),
            Attr::Rename("V".to_string()),
            Attr::Extra("two & <".to_string()),
        ],
    );
    let mut out = String::from("start:");
    write_field(&mut out, &f, &some("x"));
    assert_eq!(out, "start:<one/>two & <<V>x</V>");
    let mut none = String::new();
    write_field(&mut none, &f, &None);
    assert_eq!(none, "");
}

#[test]
fn extras_repeat_with_each_writing_of_the_field() {
    let action = ready(
        vec![],
        vec![
            field("a", false, vec![group("Big"), group("S1"), group("S2"), Attr::Extra("!".to_string())]),
            field("b", false, vec![group("Big"), group("S1"), group("S2")]),
            field("c", false, vec![group("Big")]),
        ],
    );
    assert_eq!(
        action.format(&vec![some("1"), some("2"), some("3")], ""),
        "<Big><c>3</c><S1>!<a>1</a><b>2</b></S1><S2>!<a>1</a><b>2</b></S2></Big>"
    );
}

#[test]
fn from_attrs_sorts_the_options() {
    let f = field(
        "n",
        true,
        vec![
            Attr::Extra("a".to_string()),
            group("G"),
            Attr::Rename("N".to_string()),
            numbered("H", 4),
            Attr::Extra("b".to_string()),
        ],
    );
    assert_eq!(f.ident, "n");
    assert!(f.is_option);
    assert_eq!(f.extras, vec!["a".to_string(), "b".to_string()]);
    assert_eq!(
        f.groups,
        vec![Group::named("G".to_string()), Group { name: "H".to_string(), id: Some(4) }]
    );
    assert_eq!(f.rename, Some("N".to_string()));
}

#[test]
fn attr_kinds() {
    let g = group("G");
    let r = Attr::Rename("R".to_string());
    let e = Attr::Extra("E".to_string());
    assert!(g.is_group() && !g.is_rename() && !g.is_extra());
    assert!(!r.is_group() && r.is_rename() && !r.is_extra());
    assert!(!e.is_group() && !e.is_rename() && e.is_extra());
    assert_eq!(g.as_group(), Group::named("G".to_string()));
    assert_eq!(r.as_rename(), "R");
    assert_eq!(e.as_extra(), "E");
}

#[test]
fn presence_of_a_row() {
    let fields = vec![field("a", true, vec![]), field("b", false, vec![]), field("c", true, vec![])];
    let values = vec![None, some("1"), some("2")];
    assert!(!gen_fields(&fields, &values, &vec![true, false, false]));
    assert!(gen_fields(&fields, &values, &vec![true, true, false]));
    assert!(gen_fields(&fields, &values, &vec![false, false, true]));
    assert!(!gen_fields(&fields, &values, &vec![false, false, false]));
    assert!(gen_fields(&fields, &vec![None, None, None], &vec![false, true, false]));
}

#[test]
fn picked_fields_and_difference() {
    let fields = vec![field("a", false, vec![]), field("b", false, vec![]), field("c", false, vec![])];
    let values = vec![some("1"), some("2"), some("3")];
    let own = difference(&vec![true, true, true], &vec![false, true, false]);
    assert_eq!(own, vec![true, false, true]);
    let mut out = String::new();
    write_fields(&mut out, &fields, &values, &own);
    assert_eq!(out, "<a>1</a><c>3</c>");
}

#[test]
fn inner_group_writes_all_its_members() {
    let fields = vec![
        field("a", false, vec![group("A"), group("B")]),
        field("b", true, vec![group("A"), group("B")]),
        field("c", false, vec![group("A")]),
    ];
    let grouped = group_fields(&fields);
    let mut out = String::new();
    write_grouped_fields(&mut out, 1, &grouped, &fields, &vec![some("1"), None, some("3")]);
    assert_eq!(out, "<B><a>1</a></B>");
}

#[test]
fn message_needs_one_value_for_each_field() {
    let action = ready(vec![], vec![field("id", false, vec![])]);
    assert!(Message::new(&action, vec![]).is_none());
    assert!(Message::new(&action, vec![some("1"), some("2")]).is_none());
    let message = Message::new(&action, vec![some("1")]).expect("one value for one field");
    let mut out = String::new();
    assert!(message.fmt(&mut out, "ignored").is_ok());
    assert_eq!(out, "<id>1</id>");
}

#[test]
fn record_without_fields_writes_nothing() {
    let action = ready(vec![], vec![]);
    assert_eq!(action.format(&vec![], ""), "");
    assert_eq!(action.roots.len(), 0);
}

fn text(s: &str) -> Literal {
    Literal::Str(s.to_string())
}

fn item(key: &str, form: MetaForm) -> Meta {
    Meta { key: key.to_string(), form }
}

fn pair(key: &str, value: Literal) -> Pair {
    Pair { key: key.to_string(), value }
}

#[test]
fn known_forms_of_an_option() {
    assert_eq!(
        Attr::from_meta("display", &vec![item("group", MetaForm::Value(text("Name")))]),
        Ok(group("Name"))
    );
    assert_eq!(
        Attr::from_meta(
            "display",
            &vec![item(
                "group",
                MetaForm::List(vec![pair("name", text("Name")), pair("id", Literal::Int(4))])
            )]
        ),
        Ok(numbered("Name", 4))
    );
    assert_eq!(
        Attr::from_meta(
            "display",
            &vec![item(
                "group",
                MetaForm::List(vec![
                    pair("id", Literal::Int(1)),
                    pair("name", text("A")),
                    pair("name", text("B")),
                    pair("id", Literal::Int(2))
                ])
            )]
        ),
        Ok(numbered("B", 2))
    );
    assert_eq!(
        Attr::from_meta("display", &vec![item("rename", MetaForm::Value(text("N")))]),
        Ok(Attr::Rename("N".to_string()))
    );
    assert_eq!(
        Attr::from_meta("display", &vec![item("extra", MetaForm::Value(text("<x/>")))]),
        Ok(Attr::Extra("<x/>".to_string()))
    );
    assert_eq!(
        Attr::from_meta(
            "display",
            &vec![
                item("extra", MetaForm::Value(text("e"))),
                item("rename", MetaForm::Value(text("last")))
            ]
        ),
        Ok(Attr::Rename("last".to_string()))
    );
}

#[test]
fn refused_forms_of_an_option() {
    let ok = item("rename", MetaForm::Value(text("N")));
    assert_eq!(Attr::from_meta("serde", &vec![ok]), Err(MetaError::NotDisplay));
    assert_eq!(Attr::from_meta("display", &vec![]), Err(MetaError::NoOption));
    assert_eq!(
        Attr::from_meta("display", &vec![item("skip", MetaForm::Bare)]),
        Err(MetaError::UnknownOption)
    );
    assert_eq!(
        Attr::from_meta("display", &vec![item("group", MetaForm::Bare)]),
        Err(MetaError::ExpectedValue)
    );
    assert_eq!(
        Attr::from_meta("display", &vec![item("rename", MetaForm::List(vec![]))]),
        Err(MetaError::ExpectedValue)
    );
    assert_eq!(
        Attr::from_meta("display", &vec![item("extra", MetaForm::Value(Literal::Int(3)))]),
        Err(MetaError::ExpectedString)
    );
    assert_eq!(
        Attr::from_meta("display", &vec![item("group", MetaForm::Value(Literal::Int(3)))]),
        Err(MetaError::ExpectedString)
    );
    assert_eq!(
        Attr::from_meta(
            "display",
            &vec![item("group", MetaForm::List(vec![pair("id", Literal::Int(3))]))]
        ),
        Err(MetaError::GroupWithoutName)
    );
    assert_eq!(
        Attr::from_meta(
            "display",
            &vec![item("group", MetaForm::List(vec![pair("id", text("3"))]))]
        ),
        Err(MetaError::ExpectedInteger)
    );
    assert_eq!(
        Attr::from_meta(
            "display",
            &vec![item("group", MetaForm::List(vec![pair("name", Literal::Int(3))]))]
        ),
        Err(MetaError::ExpectedString)
    );
    assert_eq!(
        Attr::from_meta(
            "display",
            &vec![item(
                "group",
                MetaForm::List(vec![pair("name", text("n")), pair("kind", text("k"))])
            )]
        ),
        Err(MetaError::UnknownGroupOption)
    );
    assert_eq!(
        Attr::from_meta(
            "display",
            &vec![
                item("extra", MetaForm::Value(text("e"))),
                item("other", MetaForm::Bare),
                item("rename", MetaForm::Bare)
            ]
        ),
        Err(MetaError::UnknownOption)
    );
    assert_eq!(MetaError::ExpectedString.message(), "expected a string literal");
}

#[test]
fn option_types_admit_absence() {
    use_is_option(&["Option"], true);
    use_is_option(&["option", "Option"], true);
    use_is_option(&["std", "option", "Option"], true);
    use_is_option(&["core", "option", "Option"], true);
    use_is_option(&["Option", "Inner"], false);
    use_is_option(&["std", "Option"], false);
    use_is_option(&["alloc", "option", "Option"], false);
    use_is_option(&["std", "option", "Option", "Inner"], false);
    use_is_option(&["String"], false);
    use_is_option(&[], false);
}

fn use_is_option(segments: &[&str], expected: bool) {
    let owned: Vec<String> = segments.iter().map(|s| s.to_string()).collect();
    assert_eq!(soap_rs::field::is_option_path(&owned), expected);
}

#[test]
fn conflict_in_words() {
    let data = record(
        vec![],
        vec![
            field("a", false, vec![group("G1")]),
            field("b", false, vec![group("G1"), group("G2")]),
            field("c", false, vec![group("G2")]),
        ],
    );
    let err = impl_display_action(data).expect_err("the groups do not nest");
    assert_eq!(
        err.message(),
        "groups `G1` and `G2` share a field, but neither contains the other"
    );
}

#[test]
fn field_without_value_that_is_not_optional_is_present() {
    let f = field("v", false, vec![Attr::Extra("!".to_string())]);
    let mut out = String::new();
    write_field(&mut out, &f, &None);
    assert_eq!(out, "!<v></v>");
}

#[test]
fn group_number_may_be_wide() {
    let wide = 340282366920938463463374607431768211455u128;
    assert_eq!(
        Attr::from_meta(
            "display",
            &vec![item(
                "group",
                MetaForm::List(vec![pair("name", text("N")), pair("id", Literal::Int(wide))])
            )]
        ),
        Ok(numbered("N", wide))
    );
    assert!(!Group { name: "N".to_string(), id: Some(wide) }
        .same(&Group { name: "N".to_string(), id: Some(wide - 1) }));
}

#[test]
fn value_that_wrote_itself_stands_as_it_is() {
    let f = field("v", true, vec![Attr::Extra("!".to_string()), Attr::Rename("V".to_string())]);
    let mut out = String::new();
    write_field(&mut out, &f, &Some(Value::Written("<inner>1</inner>".to_string())));
    write_field(&mut out, &f, &Some(Value::Written(String::new())));
    write_field(&mut out, &f, &Some(Value::Text("2".to_string())));
    assert_eq!(out, "!<inner>1</inner>!!<V>2</V>");
}

#[test]
fn values_are_written_under_the_tag_of_their_field() {
    let plain = field("count", false, vec![]);
    let renamed = field("count", true, vec![Attr::Rename("Count".to_string())]);
    let five = written(&plain, Some(&5u32)).expect("an integer can be written");
    assert!(matches!(five, Some(Value::Written(ref s)) if s == "<count>5</count>"));
    let word = written(&renamed, Some(&"w".to_string())).expect("a string can be written");
    assert!(matches!(word, Some(Value::Written(ref s)) if s == "<Count>w</Count>"));
    let unit = written(&plain, Some(&())).expect("the unit value can be written");
    assert!(matches!(unit, Some(Value::Written(ref s)) if s.is_empty()));
    let absent: Option<&String> = None;
    assert!(matches!(written(&renamed, absent), Ok(None)));
}

#[test]
fn record_inside_a_record_writes_its_own_body() {
    let inner = ready(
        vec![group("Inner")],
        vec![field("a", false, vec![]), field("b", true, vec![])],
    );
    let outer = ready(
        vec![],
        vec![field("id", false, vec![]), field("part", false, vec![group("Parts")])],
    );
    let inner_message = Message::new(&inner, vec![some("1"), None]).expect("two values");
    let part = written(&outer.data.fields[1], Some(&inner_message)).expect("a record can be written");
    let id = written(&outer.data.fields[0], Some(&7i64)).expect("an integer can be written");
    assert_eq!(
        outer.format(&vec![id, part], ""),
        "<id>7</id><Parts><Inner><a>1</a></Inner></Parts>"
    );
}
