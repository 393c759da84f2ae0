use profit_dao::DAOFactoryContract;

const CREATOR: u64 = 1;
const OTHER: u64 = 2;
const A: u64 = 10;

#[test]
fn create_dao_counts_up_and_wires_token() {
    let mut f = DAOFactoryContract::new();
    let (id0, mut dao, mut token) =
        f.create_dao("One".to_string(), "first".to_string(), 500, CREATOR, 100, 200);
    let (id1, _, _) = f.create_dao("Two".to_string(), "second".to_string(), 9, OTHER, 101, 201);
    assert_eq!((id0, id1), (0, 1));
    assert_eq!(f.get_dao_count(), 2);
    assert_eq!(f.get_dao(0), Some(100));
    assert_eq!(f.get_dao(1), Some(101));
    assert_eq!(f.get_dao(2), None);
    assert_eq!(dao.get_name(), "One");
    assert_eq!(dao.get_creator(), CREATOR);
    assert_eq!(dao.get_token_contract(), 200);
    assert_eq!(token.get_admin(), Some(100));
    assert_eq!(dao.invest(&mut token, A, A, 40), Ok(()));
    assert_eq!(token.balance(A), 40);
}

#[test]
fn paginated_lookup() {
    let mut f = DAOFactoryContract::new();
    for i in 0..5u64 {
        f.create_dao("D".to_string(), "d".to_string(), 1, CREATOR, 100 + i, 200 + i);
    }
    assert_eq!(f.get_daos_paginated(1, 2), vec![(1, 101), (2, 102)]);
    assert_eq!(f.get_daos_paginated(3, 10), vec![(3, 103), (4, 104)]);
    assert_eq!(f.get_daos_paginated(5, 1), vec![]);
    assert_eq!(f.get_daos_paginated(2, 0), vec![]);
    assert_eq!(f.get_daos_paginated(4, u64::MAX), vec![(4, 104)]);
}

#[test]
fn lookup_by_creator_and_all() {
    let mut f = DAOFactoryContract::new();
    f.create_dao("A".to_string(), "a".to_string(), 1, CREATOR, 100, 200);
    f.create_dao("B".to_string(), "b".to_string(), 1, OTHER, 101, 201);
    f.create_dao("C".to_string(), "c".to_string(), 1, CREATOR, 102, 202);
    assert_eq!(f.get_daos_by_creator(CREATOR), vec![(0, 100), (2, 102)]);
    assert_eq!(f.get_daos_by_creator(OTHER), vec![(1, 101)]);
    assert_eq!(f.get_daos_by_creator(A), vec![]);
    assert_eq!(f.get_all_daos(), vec![100, 101, 102]);
}
