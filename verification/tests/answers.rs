use illiad::utils::error::{
    audiobooks_cant_query, binary_cant_create, cant_auth, cant_login, cant_register,
    hash_cant_query, not_found, position_cant_query, position_cant_update, success,
};

#[test]
fn success_is_code_zero() {
    let answer = success();
    assert_eq!(answer.code, 0);
    assert_eq!(answer.msg, "Success");
}

#[test]
fn every_answer_has_its_own_code_and_message() {
    let answers = vec![
        (success(), 0, "Success"),
        (not_found(), 1, "Error, endpoint does not exists"),
        (cant_auth(), 2, "Error, could not authenticate"),
        (position_cant_update(), 3, "Error, could not update position"),
        (hash_cant_query(), 4, "Error, hash not available"),
        (binary_cant_create(), 5, "Error, could not create binary data"),
        (position_cant_query(), 6, "Error, could not get position"),
        (cant_register(), 7, "Error, could not register"),
        (cant_login(), 8, "Error, could not login"),
        (audiobooks_cant_query(), 9, "Error, could not query audiobooks"),
    ];
    for (answer, code, msg) in answers {
        assert_eq!(answer.code, code);
        assert_eq!(answer.msg, msg);
    }
}
