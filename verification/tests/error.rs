use big_sql::error::{PlanError, Refused, SqlError};

/// The half `Refused::rank`'s exhaustive match cannot claim on its own: a variant can be given a
/// rank and still be left out of `Refused::ALL`.
#[test]
fn every_refusal_is_in_the_list_exactly_once() {
    let mut ranks: Vec<usize> = Refused::ALL.iter().map(|r| r.rank()).collect();
    ranks.sort_unstable();
    assert_eq!(ranks, (0..Refused::ALL.len()).collect::<Vec<_>>());
}

/// Every refusal says something, and the two halves are different jobs: the code is what a
/// client branches on, and the sentence is what a person reads.
#[test]
fn every_refusal_carries_a_code_and_a_reason() {
    for refused in Refused::ALL {
        assert!(refused.code().starts_with("sql_"), "{refused:?}");
        assert!(refused.why().len() > 20, "{refused:?} says too little");
    }
}

#[test]
fn an_error_says_where_and_why() {
    let e = SqlError::Refused { what: Refused::DeleteAll, at: 12 };
    assert_eq!(e.code(), "sql_delete_all");
    assert!(e.message().starts_with("at byte 12: "), "{}", e.message());
    let e = SqlError::from(PlanError { code: "no_such_field", message: "no field x".to_string() });
    assert_eq!(e.code(), "no_such_field");
}

#[test]
fn a_rank_is_a_place_in_the_list() {
    for (i, refused) in Refused::ALL.into_iter().enumerate() {
        assert_eq!(refused.rank(), i);
    }
    assert_eq!(Refused::InsertSelfRead.rank(), 19);
    assert_eq!(Refused::ArrayFunction.rank(), 96);
}

#[test]
fn syntactic_failures_share_a_code() {
    for e in [
        SqlError::Syntax { at: 0, found: String::new(), want: "" },
        SqlError::UnterminatedString { at: 0 },
        SqlError::NumberTooLarge { at: 0 },
        SqlError::NegativeDecimal { at: 0 },
        SqlError::TooDeep { at: 0, limit: 1 },
    ] {
        assert_eq!(e.code(), "parse_error");
    }
}

#[test]
fn codes_are_shared_within_a_group() {
    let groups = [
        vec![Refused::Ambiguous, Refused::ThreePartName],
        vec![Refused::InsertColumns, Refused::InsertId],
        vec![
            Refused::Subquery,
            Refused::Having,
            Refused::Offset,
            Refused::Expression,
            Refused::MultiDistinct,
            Refused::Shape,
            Refused::JoinShape,
            Refused::InsertSelect,
            Refused::Case,
            Refused::Cast,
            Refused::Aggregate,
            Refused::Predicate,
            Refused::Interval,
        ],
    ];
    for a in Refused::ALL {
        for b in Refused::ALL {
            let kin = a == b || groups.iter().any(|g| g.contains(&a) && g.contains(&b));
            assert_eq!(a.code() == b.code(), kin, "{a:?} {b:?}");
        }
    }
    assert!(groups[2].iter().all(|r| r.code() == "sql_unsupported"));
}
