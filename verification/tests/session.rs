use klickhouse::clickhouse_enum::{
    clickhouse_names, expand, parse_rename_all, parse_variant_rename, AttributeError,
    DeriveError, ExpandError, RenameRule, Variant, VariantInput,
};
use klickhouse::protocol::ServerPacketId;
use klickhouse::session::{Delivery, Session, Step};
use klickhouse::KlickhouseError;

#[test]
fn two_queries_are_served_one_after_the_other() {
    let mut session = Session::new(8);
    assert!(!session.is_closed());
    assert_eq!(session.submit(1).unwrap(), true);
    assert_eq!(session.submit(2).unwrap(), false);
    assert_eq!(session.serving(), Some(1));
    assert_eq!(
        session.on_packet(ServerPacketId::Data),
        Step { delivery: Delivery::Block(1), send_next: None }
    );
    assert_eq!(
        session.on_packet(ServerPacketId::Progress),
        Step { delivery: Delivery::Notice(1), send_next: None }
    );
    assert_eq!(
        session.on_packet(ServerPacketId::EndOfStream),
        Step { delivery: Delivery::Close(1), send_next: Some(2) }
    );
    assert_eq!(session.serving(), Some(2));
    assert_eq!(
        session.on_packet(ServerPacketId::Data),
        Step { delivery: Delivery::Block(2), send_next: None }
    );
    assert_eq!(
        session.on_packet(ServerPacketId::Exception),
        Step { delivery: Delivery::Exception(2), send_next: None }
    );
    assert_eq!(session.serving(), None);
    assert_eq!(
        session.on_packet(ServerPacketId::Data),
        Step { delivery: Delivery::Discard, send_next: None }
    );
}

#[test]
fn queries_are_served_in_the_order_of_submission() {
    let mut session = Session::new(8);
    for id in [10, 30, 20, 40] {
        session.submit(id).unwrap();
    }
    let mut order = vec![session.serving().unwrap()];
    for _ in 0..3 {
        order.push(session.on_packet(ServerPacketId::EndOfStream).send_next.unwrap());
    }
    assert_eq!(order, vec![10, 30, 20, 40]);
    assert_eq!(session.on_packet(ServerPacketId::EndOfStream).send_next, None);
    assert_eq!(session.serving(), None);
}

#[test]
fn a_dropped_handle_cancels_and_drains() {
    let mut session = Session::new(8);
    session.submit(1).unwrap();
    session.submit(2).unwrap();
    session.submit(3).unwrap();
    assert!(!session.on_handle_dropped(2));
    assert!(session.on_handle_dropped(1));
    assert!(!session.on_handle_dropped(1));
    assert_eq!(session.serving(), Some(1));
    for kind in [ServerPacketId::Data, ServerPacketId::Log, ServerPacketId::Totals] {
        assert_eq!(
            session.on_packet(kind),
            Step { delivery: Delivery::Discard, send_next: None }
        );
    }
    assert_eq!(
        session.on_packet(ServerPacketId::EndOfStream),
        Step { delivery: Delivery::Discard, send_next: Some(3) }
    );
    assert_eq!(session.serving(), Some(3));
    assert!(!session.on_handle_dropped(9));
}

#[test]
fn an_io_error_closes_the_session_for_good() {
    let mut session = Session::new(1);
    session.submit(1).unwrap();
    session.submit(2).unwrap();
    assert!(matches!(session.submit(3), Err(KlickhouseError::ProtocolError(_))));
    assert_eq!(session.on_io_error(), vec![1, 2]);
    assert!(session.is_closed());
    assert!(matches!(session.submit(4), Err(KlickhouseError::ConnectionError(_))));
    assert_eq!(
        session.on_packet(ServerPacketId::Data),
        Step { delivery: Delivery::Discard, send_next: None }
    );
    assert_eq!(session.on_io_error(), Vec::<u64>::new());
    assert!(session.is_closed());
    assert!(matches!(
        klickhouse::session::connection_lost(),
        KlickhouseError::ConnectionError(_)
    ));
}

fn unit(ident: &str, rename: Option<&str>) -> Variant {
    Variant { ident: ident.to_string(), is_unit: true, rename: rename.map(str::to_string) }
}

#[test]
fn variant_names_follow_the_rule() {
    let cases = [
        (RenameRule::Keep, "InProgress"),
        (RenameRule::PascalCase, "InProgress"),
        (RenameRule::LowerCase, "inprogress"),
        (RenameRule::UpperCase, "INPROGRESS"),
        (RenameRule::CamelCase, "inProgress"),
        (RenameRule::SnakeCase, "in_progress"),
        (RenameRule::ScreamingSnakeCase, "IN_PROGRESS"),
        (RenameRule::KebabCase, "in-progress"),
        (RenameRule::ScreamingKebabCase, "IN-PROGRESS"),
    ];
    for (rule, expected) in cases {
        assert_eq!(rule.apply_to_variant("InProgress"), expected, "{rule:?}");
    }
    assert_eq!(RenameRule::SnakeCase.apply_to_variant(""), "");
    assert_eq!(RenameRule::CamelCase.apply_to_variant(""), "");
    assert_eq!(RenameRule::SnakeCase.apply_to_variant("HTTPCode"), "h_t_t_p_code");
    assert_eq!(RenameRule::from_str("snake_case"), Some(RenameRule::SnakeCase));
    assert_eq!(RenameRule::from_str("SCREAMING_SNAKE_CASE"), Some(RenameRule::ScreamingSnakeCase));
    assert_eq!(RenameRule::from_str("lowercase"), Some(RenameRule::LowerCase));
    assert_eq!(RenameRule::from_str("UPPERCASE"), Some(RenameRule::UpperCase));
    assert_eq!(RenameRule::from_str("PascalCase"), Some(RenameRule::PascalCase));
    assert_eq!(RenameRule::from_str("camelCase"), Some(RenameRule::CamelCase));
    assert_eq!(RenameRule::from_str("kebab-case"), Some(RenameRule::KebabCase));
    assert_eq!(RenameRule::from_str("SCREAMING-KEBAB-CASE"), Some(RenameRule::ScreamingKebabCase));
    assert_eq!(RenameRule::from_str("Snake_Case"), None);
}

#[test]
fn enum_names_are_derived_for_unit_variants_only() {
    let variants = vec![
        unit("NewOrder", None),
        unit("InProgress", None),
        unit("Completed", Some("done")),
        unit("Cancelled", None),
    ];
    assert_eq!(
        clickhouse_names(true, &variants, RenameRule::SnakeCase).unwrap(),
        vec!["new_order", "in_progress", "done", "cancelled"]
    );
    assert_eq!(
        clickhouse_names(true, &variants[..2].to_vec(), RenameRule::Keep).unwrap(),
        vec!["NewOrder", "InProgress"]
    );
    assert_eq!(
        clickhouse_names(false, &variants, RenameRule::Keep),
        Err(DeriveError::NotAnEnum)
    );
    let mut with_fields = variants.clone();
    with_fields[1].is_unit = false;
    with_fields[3].is_unit = false;
    assert_eq!(
        clickhouse_names(true, &with_fields, RenameRule::Keep),
        Err(DeriveError::VariantWithFields(1))
    );
    assert_eq!(clickhouse_names(true, &vec![], RenameRule::Keep).unwrap(), Vec::<String>::new());
}

fn arg(name: &str, is_name_value: bool, literal: Option<&str>) -> klickhouse::clickhouse_enum::AttributeArg {
    klickhouse::clickhouse_enum::AttributeArg {
        name: name.to_string(),
        is_name_value,
        literal: literal.map(str::to_string),
    }
}

fn attribute(
    is_klickhouse: bool,
    args: Option<Vec<klickhouse::clickhouse_enum::AttributeArg>>,
) -> klickhouse::clickhouse_enum::Attribute {
    klickhouse::clickhouse_enum::Attribute { is_klickhouse, args }
}

#[test]
fn rename_all_is_the_first_setting_of_the_derive() {
    assert_eq!(parse_rename_all(&vec![]), Ok(RenameRule::Keep));
    let attrs = vec![
        attribute(false, None),
        attribute(true, Some(vec![arg("rename", true, Some("x")), arg("rename_all", false, None)])),
        attribute(
            true,
            Some(vec![
                arg("other", true, Some("snake_case")),
                arg("rename_all", true, Some("snake_case")),
                arg("rename_all", true, Some("lowercase")),
            ]),
        ),
        attribute(true, None),
    ];
    assert_eq!(parse_rename_all(&attrs), Ok(RenameRule::SnakeCase));

    let attrs = vec![attribute(true, None), attribute(true, Some(vec![arg("rename_all", true, Some("lowercase"))]))];
    assert_eq!(parse_rename_all(&attrs), Err(AttributeError::Malformed { attribute: 0 }));

    let attrs = vec![attribute(true, Some(vec![arg("a", false, None), arg("rename_all", true, None)]))];
    assert_eq!(
        parse_rename_all(&attrs),
        Err(AttributeError::NotAString { attribute: 0, argument: 1 })
    );

    let attrs = vec![
        attribute(false, Some(vec![arg("rename_all", true, Some("lowercase"))])),
        attribute(true, Some(vec![arg("rename_all", true, Some("Title Case"))])),
    ];
    assert_eq!(
        parse_rename_all(&attrs),
        Err(AttributeError::UnknownRule { attribute: 1, argument: 0 })
    );
}

#[test]
fn variant_rename_is_the_first_setting_of_the_derive() {
    assert_eq!(parse_variant_rename(&vec![]), Ok(None));
    let attrs = vec![
        attribute(false, Some(vec![arg("rename", true, Some("not mine"))])),
        attribute(true, Some(vec![arg("rename_all", true, Some("lowercase"))])),
        attribute(true, Some(vec![arg("rename", true, Some("stored")), arg("rename", true, Some("late"))])),
    ];
    assert_eq!(parse_variant_rename(&attrs), Ok(Some("stored".to_string())));
    let attrs = vec![attribute(true, Some(vec![arg("rename", true, None)]))];
    assert_eq!(
        parse_variant_rename(&attrs),
        Err(AttributeError::NotAString { attribute: 0, argument: 0 })
    );
    let attrs = vec![attribute(true, None)];
    assert_eq!(parse_variant_rename(&attrs), Err(AttributeError::Malformed { attribute: 0 }));
}

#[test]
fn a_session_stays_well_formed() {
    let mut session = klickhouse::session::Session::new(2);
    assert!(session.is_well_formed());
    session.submit(1).unwrap();
    session.submit(2).unwrap();
    assert!(session.is_well_formed());
    session.on_io_error();
    assert!(session.is_well_formed());
    assert!(session.is_closed());
}

fn input(ident: &str, is_unit: bool, rename: Option<&str>) -> VariantInput {
    VariantInput {
        ident: ident.to_string(),
        is_unit,
        attrs: match rename {
            Some(name) => vec![attribute(true, Some(vec![arg("rename", true, Some(name))]))],
            None => vec![attribute(false, None)],
        },
    }
}

#[test]
fn the_derive_names_variants_by_rule_and_by_request() {
    let snake = vec![attribute(true, Some(vec![arg("rename_all", true, Some("snake_case"))]))];
    let variants = vec![
        input("NewOrder", true, None),
        input("InProgress", true, None),
        input("Completed", true, Some("done")),
    ];
    assert_eq!(expand(true, &snake, &variants).unwrap(), vec!["new_order", "in_progress", "done"]);
    assert_eq!(expand(true, &vec![], &variants).unwrap(), vec!["NewOrder", "InProgress", "done"]);
    assert_eq!(expand(true, &snake, &vec![]).unwrap(), Vec::<String>::new());
}

#[test]
fn the_derive_reports_the_first_thing_wrong() {
    let unknown = vec![attribute(true, Some(vec![arg("rename_all", true, Some("Title Case"))]))];
    let mut variants = vec![
        input("A", true, None),
        input("B", true, None),
        input("C", true, None),
    ];
    variants[1].attrs = vec![attribute(true, None)];
    variants[2].attrs = vec![attribute(true, Some(vec![arg("rename", true, None)]))];
    assert_eq!(
        expand(false, &unknown, &variants),
        Err(ExpandError::Item(DeriveError::NotAnEnum))
    );
    assert_eq!(
        expand(true, &unknown, &variants),
        Err(ExpandError::Container(AttributeError::UnknownRule { attribute: 0, argument: 0 }))
    );
    assert_eq!(
        expand(true, &vec![], &variants),
        Err(ExpandError::Variant {
            variant: 1,
            error: AttributeError::Malformed { attribute: 0 }
        })
    );
    variants[1].attrs = vec![];
    assert_eq!(
        expand(true, &vec![], &variants),
        Err(ExpandError::Variant {
            variant: 2,
            error: AttributeError::NotAString { attribute: 0, argument: 0 }
        })
    );
    variants[2].is_unit = false;
    assert_eq!(
        expand(true, &unknown, &variants),
        Err(ExpandError::Item(DeriveError::VariantWithFields(2)))
    );
}

#[test]
fn a_reply_is_drained_to_its_end() {
    let mut session = Session::new(4);
    assert_eq!(session.submit(1).unwrap(), true);
    for kind in [ServerPacketId::Progress, ServerPacketId::Data, ServerPacketId::ProfileInfo] {
        let step = session.on_packet(kind);
        assert_eq!(step.send_next, None);
        assert_eq!(session.serving(), Some(1));
    }
    let step = session.on_packet(ServerPacketId::EndOfStream);
    assert_eq!(step, Step { delivery: Delivery::Close(1), send_next: None });
    assert_eq!(session.serving(), None);
    assert!(!session.is_closed());
    assert_eq!(session.submit(2).unwrap(), true);
    let step = session.on_packet(ServerPacketId::Exception);
    assert_eq!(step, Step { delivery: Delivery::Exception(2), send_next: None });
    assert!(!session.is_closed());
}
