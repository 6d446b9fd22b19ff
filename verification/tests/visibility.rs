use secure_keyspaces::access::{canonicalize_cell, is_visible, parse_visibility};
use secure_keyspaces::{Authorizations, Cell, Error, VisibilityExpr};

fn canonical(input: &str) -> Result<String, Error> {
    Ok(VisibilityExpr::parse(input)?.into_string())
}

fn auths(labels: &[&str]) -> Result<Authorizations, Error> {
    Authorizations::from_labels(labels.iter().map(|label| label.to_string()).collect())
}

#[test]
fn empty_visibility_is_public() -> Result<(), Error> {
    let expr = VisibilityExpr::parse("")?;

    assert!(expr.is_public());
    assert_eq!("", expr.as_str());
    assert!(expr.evaluate(&Authorizations::empty()));

    Ok(())
}

#[test]
fn evaluates_labels_conjunctions_and_disjunctions() -> Result<(), Error> {
    let admin = auths(&["admin"])?;
    let audit = auths(&["audit"])?;
    let admin_audit = auths(&["admin", "audit"])?;

    assert!(VisibilityExpr::parse("admin")?.evaluate(&admin));
    assert!(!VisibilityExpr::parse("admin")?.evaluate(&audit));
    assert!(VisibilityExpr::parse("admin&audit")?.evaluate(&admin_audit));
    assert!(!VisibilityExpr::parse("admin&audit")?.evaluate(&admin));
    assert!(VisibilityExpr::parse("admin|audit")?.evaluate(&admin));
    assert!(VisibilityExpr::parse("admin|audit")?.evaluate(&audit));

    Ok(())
}

#[test]
fn parser_honors_precedence_and_parentheses() -> Result<(), Error> {
    let admin = auths(&["admin"])?;
    let audit = auths(&["audit"])?;
    let support_audit = auths(&["support", "audit"])?;

    let precedence = VisibilityExpr::parse("admin|support&audit")?;
    assert!(precedence.evaluate(&admin));
    assert!(!precedence.evaluate(&audit));
    assert!(precedence.evaluate(&support_audit));

    let grouped = VisibilityExpr::parse("(admin|support)&audit")?;
    assert!(!grouped.evaluate(&admin));
    assert!(grouped.evaluate(&support_audit));

    Ok(())
}

#[test]
fn canonicalizes_commutative_associative_expressions() -> Result<(), Error> {
    assert_eq!("admin&audit", canonical("audit&admin")?);
    assert_eq!("admin&audit", canonical("admin&(audit&admin)")?);
    assert_eq!("admin|audit|support", canonical("support|admin|audit")?);
    assert_eq!("(admin|support)&audit", canonical("audit&(support|admin)")?);
    assert_eq!("admin|audit&support", canonical("support&audit|admin")?);

    Ok(())
}

#[test]
fn rejects_invalid_syntax() {
    for input in [
        "&admin",
        "admin|",
        "admin&&audit",
        "()",
        "(admin",
        "admin)",
        "admin audit",
    ] {
        assert!(
            VisibilityExpr::parse(input).is_err(),
            "{input:?} should be invalid",
        );
    }
}

#[test]
fn authorization_sets_validate_labels() -> Result<(), Error> {
    let mut auths = Authorizations::empty();

    assert!(auths.insert("admin".to_string())?);
    assert!(!auths.insert("admin".to_string())?);
    assert!(auths.contains("admin"));
    assert!(auths.insert("tenant:acme".to_string())?);
    assert!(auths.insert("policy.v1".to_string())?);
    assert!(auths.insert("break-glass".to_string())?);
    assert!(auths.insert("_system".to_string())?);
    assert!(auths.insert("bad label".to_string()).is_err());
    assert!(auths.insert("".to_string()).is_err());

    assert_eq!(
        vec![
            "_system",
            "admin",
            "break-glass",
            "policy.v1",
            "tenant:acme"
        ],
        auths.iter(),
    );

    Ok(())
}

#[test]
fn names_what_is_wrong_with_an_expression() {
    let error = |input: &str| VisibilityExpr::parse(input).unwrap_err();

    for input in ["&admin", "admin|", "admin&&audit", "()", "é", " admin"] {
        assert_eq!(
            Error::InvalidVisibilityExpression("expected label or parenthesized expression"),
            error(input),
        );
    }
    for input in ["(admin", "(admin|audit&x", "(admin é)"] {
        assert_eq!(
            Error::InvalidVisibilityExpression("expected closing parenthesis"),
            error(input),
        );
    }
    for input in ["admin)", "admin audit", "admin(", "adminé"] {
        assert_eq!(
            Error::InvalidVisibilityExpression("unexpected trailing visibility token"),
            error(input),
        );
    }
    assert_eq!(
        Err(Error::InvalidVisibilityExpression(
            "authorization label must be a valid identifier"
        )),
        auths(&["admin", "bad label"]),
    );
}

#[test]
fn canonical_text_is_its_own_canonical_form() -> Result<(), Error> {
    for input in [
        "",
        "a",
        "((a))",
        "b&a&b",
        "(b|a)&(d|c)|e&f|(g)",
        "a&(b|c&(d|e))",
        "a-b&a.b&a:b&a_b",
        "Z&a&0",
    ] {
        let text = canonical(input)?;
        assert_eq!(text, canonical(&text)?);
        assert_eq!(VisibilityExpr::parse(input)?, VisibilityExpr::parse(&text)?);
    }
    assert_eq!("(a|b)&(c|d)|e&f|g", canonical("(b|a)&(d|c)|e&f|(g)")?);
    assert_eq!("a&(b|c&(d|e))", canonical("((e|d)&c|b)&a")?);
    assert_eq!("a-b&a.b&a:b&a_b", canonical("a_b&a:b&a.b&a-b")?);
    assert_eq!("0&Z&a", canonical("Z&a&0")?);

    Ok(())
}

#[test]
fn order_grouping_and_repetition_do_not_matter() -> Result<(), Error> {
    let same = canonical("a&b&c")?;
    for input in ["c&b&a", "(a&b)&c", "a&(b&c)", "a&(b&(c&a))&b", "a&b&c&c"] {
        assert_eq!(same, canonical(input)?);
    }
    let same = canonical("a|b&c")?;
    for input in ["c&b|a", "a|(b&c)|a", "(a|(c&b|a))"] {
        assert_eq!(same, canonical(input)?);
    }

    Ok(())
}

#[test]
fn canonicalizing_keeps_who_may_see() -> Result<(), Error> {
    let input = "c&(b|a)|d&d|(a&(e|c))";
    let expr = VisibilityExpr::parse(input)?;
    let by_hand = |has: &dyn Fn(&str) -> bool| {
        has("c") && (has("b") || has("a")) || has("d") || has("a") && (has("e") || has("c"))
    };
    let all = ["a", "b", "c", "d", "e"];

    for mask in 0..32usize {
        let held: Vec<&str> = (0..5).filter(|i| mask >> i & 1 == 1).map(|i| all[i]).collect();
        let set = auths(&held)?;
        assert_eq!(by_hand(&|label| held.contains(&label)), expr.evaluate(&set));
        // Another label can only reveal more.
        for label in all {
            let mut more = set.clone();
            more.insert(label.to_string())?;
            assert!(!expr.evaluate(&set) || expr.evaluate(&more));
        }
    }

    Ok(())
}

#[test]
fn only_the_empty_expression_is_public() -> Result<(), Error> {
    assert!(VisibilityExpr::public().is_public());
    assert!("".parse::<VisibilityExpr>()?.is_public());
    assert!(!"a".parse::<VisibilityExpr>()?.is_public());
    assert_eq!(b"a&b".as_slice(), VisibilityExpr::parse("b&a")?.as_bytes());
    assert_eq!(VisibilityExpr::parse("b&a")?, VisibilityExpr::parse("a&b")?.clone());

    Ok(())
}

#[test]
fn authorization_sets_are_sets() -> Result<(), Error> {
    let set = auths(&["b", "a", "b"])?;

    assert_eq!(vec!["a", "b"], set.iter());
    assert_eq!(set, auths(&["a", "b"])?);
    assert_eq!(set, set.clone());
    assert!(!set.contains("c"));
    assert_eq!(Authorizations::default(), auths(&[])?);

    Ok(())
}

#[test]
fn visibility_bytes_must_be_canonical_text() -> Result<(), Error> {
    let holder = auths(&["admin"])?;

    assert_eq!(Ok(true), is_visible(b"admin|audit", &holder));
    assert_eq!(Ok(false), is_visible(b"admin&audit", &holder));
    assert_eq!(Ok(true), is_visible(b"", &Authorizations::empty()));
    assert_eq!(
        Err(Error::InvalidVisibilityExpression(
            "visibility expression must be valid UTF-8"
        )),
        is_visible(b"admin\xff", &holder),
    );
    assert_eq!(
        Err(Error::InvalidVisibilityExpression(
            "unexpected trailing visibility token"
        )),
        parse_visibility("admin\u{e9}".as_bytes()),
    );

    let cell = |visibility: &[u8]| {
        Cell {
            row: b"r".to_vec(),
            family: b"f".to_vec(),
            qualifier: b"q".to_vec(),
            visibility: visibility.to_vec(),
        }
        .version(3)
    };
    assert_eq!(Ok(cell(b"a&b")), canonicalize_cell(&cell(b"a&b")));
    assert_eq!(
        Err(Error::InvalidVisibilityExpression(
            "secure writes require canonical visibility expressions"
        )),
        canonicalize_cell(&cell(b"b&a")),
    );

    Ok(())
}
