use forge_domain::{ConversationId, DomainError};

#[test]
fn conversation_id_text_is_hyphenated_lower_case() {
    let id = ConversationId::from_u128(0x67e5_5044_10b1_426f_9247_bb68_0e5f_e0c8);
    assert_eq!(id.into_string(), "67e55044-10b1-426f-9247-bb680e5fe0c8");
}

#[test]
fn conversation_id_text_reads_back() {
    let id = ConversationId::from_u128(0x0123_4567_89ab_cdef_fedc_ba98_7654_3210);
    let text = id.into_string();
    let parsed = ConversationId::parse(&text).unwrap();
    assert_eq!(parsed, id);
}

#[test]
fn conversation_id_parse_accepts_other_forms() {
    let expected = ConversationId::from_u128(0x67e5_5044_10b1_426f_9247_bb68_0e5f_e0c8);
    let simple = ConversationId::parse("67e5504410b1426f9247bb680e5fe0c8").unwrap();
    let upper = ConversationId::parse("67E55044-10B1-426F-9247-BB680E5FE0C8").unwrap();
    let braced = ConversationId::parse("{67e55044-10b1-426f-9247-bb680e5fe0c8}").unwrap();
    assert_eq!(simple, expected);
    assert_eq!(upper, expected);
    assert_eq!(braced, expected);
    assert_eq!(simple.as_u128(), 0x67e5_5044_10b1_426f_9247_bb68_0e5f_e0c8);
}

#[test]
fn conversation_id_parse_refuses_other_text() {
    let r = ConversationId::parse("not-a-uuid");
    assert!(matches!(r, Err(DomainError::ConversationId(_))));
    let r = ConversationId::parse("");
    assert!(matches!(r, Err(DomainError::ConversationId(_))));
}

#[test]
fn conversation_id_generate_is_version_four() {
    let a = ConversationId::generate();
    let b = ConversationId::generate();
    let ua = uuid::Uuid::from_u128(a.as_u128());
    assert_eq!(ua.get_version_num(), 4);
    assert_eq!(ua.get_variant(), uuid::Variant::RFC4122);
    assert_ne!(a, b);
    assert_eq!(a.into_string().len(), 36);
}

#[test]
fn conversation_id_from_parse_result_maps_both_outcomes() {
    let ok = ConversationId::from_parse_result(Ok(7));
    assert_eq!(ok.unwrap().as_u128(), 7);
    let err = uuid::Uuid::parse_str("zz").unwrap_err();
    let r = ConversationId::from_parse_result(Err(err));
    assert!(matches!(r, Err(DomainError::ConversationId(_))));
}
