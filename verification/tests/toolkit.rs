use shade_storage::{
    admin_is_valid, authenticate_arbitrary_permit, authenticate_permit, authenticate_vk, exp10,
    message_block_size, pad_execute_result, pad_query_result, padded_copy, space_pad,
    validate_admin, AdminAuthStatus, AdminPermissions, Answer, AuthError, Contract,
    ContractStatus, ExecuteAnswer, IbcKeeper, IbcSudo, PermissionsResponse, PermitAuthentication,
    QueryAnswer, RawContract, RegistryAction, ResponseStatus, SimpleRebase, Unauthorized,
    ValidateAdminPermissionResponse, U256,
};

#[test]
fn space_pad_fills_up_to_the_block() {
    let mut message = b"abc".to_vec();
    assert_eq!(space_pad(&mut message, 8), &mut b"abc     ".to_vec());
    assert_eq!(message, b"abc     ".to_vec());
    let mut message = b"abcdefgh".to_vec();
    space_pad(&mut message, 8);
    assert_eq!(message, b"abcdefgh".to_vec());
    let mut message = b"abcdefghi".to_vec();
    space_pad(&mut message, 8);
    assert_eq!(message, b"abcdefghi       ".to_vec());
    let mut message: Vec<u8> = Vec::new();
    space_pad(&mut message, 256);
    assert!(message.is_empty());
    let mut message = vec![b'x'; 257];
    space_pad(&mut message, 256);
    assert_eq!(message.len(), 512);
    assert!(message[257..].iter().all(|b| *b == b' '));
    let mut message = b"ab".to_vec();
    space_pad(&mut message, 1);
    assert_eq!(message, b"ab".to_vec());
}

#[test]
fn permissions_have_their_names() {
    let names = [
        (AdminPermissions::QueryAuthAdmin, "SHADE_QUERY_AUTH_ADMIN"),
        (AdminPermissions::ScrtStakingAdmin, "SHADE_SCRT_STAKING_ADMIN"),
        (AdminPermissions::TreasuryManager, "SHADE_TREASURY_MANAGER"),
        (AdminPermissions::TreasuryAdmin, "SHADE_TREASURY_ADMIN"),
        (AdminPermissions::StabilityAdmin, "SHADE_STABILITY_ADMIN"),
        (AdminPermissions::SkyAdmin, "SHADE_SKY_ADMIN"),
        (AdminPermissions::LendAdmin, "SHADE_LEND_ADMIN"),
        (AdminPermissions::OraclesAdmin, "SHADE_ORACLES_ADMIN"),
        (AdminPermissions::OraclesPriceBot, "SHADE_ORACLES_PRICE_BOT"),
        (AdminPermissions::SilkAdmin, "SHADE_SILK_ADMIN"),
        (AdminPermissions::ShadeSwapAdmin, "SHADE_SWAP_ADMIN"),
        (AdminPermissions::StakingAdmin, "SHADE_STAKING_ADMIN"),
        (AdminPermissions::DerivativeAdmin, "SHADE_DERIVATIVE_ADMIN"),
        (AdminPermissions::Snip20MigrationAdmin, "SNIP20_MIGRATION_ADMIN"),
    ];
    for (permission, name) in names {
        assert_eq!(permission.into_string(), name);
    }
}

#[test]
fn raw_contract_takes_anything_that_turns_into_a_string() {
    let contract = RawContract::new("addr", String::from("code_hash"));
    assert_eq!(contract.address, "addr");
    assert_eq!(contract.code_hash, "code_hash");
    assert_eq!(contract, RawContract::new(String::from("addr"), "code_hash"));
    assert_eq!(RawContract::default().address, "");
}

#[test]
fn message_types_compare_by_content() {
    assert_ne!(AdminAuthStatus::Active, AdminAuthStatus::Shutdown);
    assert_ne!(ContractStatus::DisablePermit, ContractStatus::DisableVK);
    assert_eq!(
        RegistryAction::GrantAccess {
            permissions: vec!["a".to_string()],
            user: "u".to_string()
        },
        RegistryAction::GrantAccess {
            permissions: vec!["a".to_string()],
            user: "u".to_string()
        }
    );
    assert_ne!(
        ExecuteAnswer::SetRunState {
            status: ResponseStatus::Success
        },
        ExecuteAnswer::SetRunState {
            status: ResponseStatus::Failure
        }
    );
    assert!(ValidateAdminPermissionResponse {
        has_permission: true
    }
    .has_permission);
    assert_eq!(
        PermissionsResponse {
            permissions: vec![]
        }
        .permissions
        .len(),
        0
    );
}

#[test]
fn test_const() {
    let mut expected_string = "1".to_string();
    for i in 0..78_u8 {
        let result = exp10(i);
        let (hi, lo) = result.into_words();
        let expected = ethnum::U256::from_str_prefixed(&expected_string).unwrap();
        assert_eq!(expected, ethnum::U256::from_words(hi, lo));
        expected_string.push('0');
    }
}

#[test]
fn powers_of_ten_at_the_word_boundary() {
    assert_eq!(exp10(0), U256::from_words(0, 1));
    assert_eq!(exp10(18), U256::from_words(0, 1_000_000_000_000_000_000));
    assert_eq!(
        exp10(38),
        U256::from_words(0, 100_000_000_000_000_000_000_000_000_000_000_000_000)
    );
    assert_eq!(
        exp10(39),
        U256::from_words(2, 319_435_266_158_123_073_073_250_785_136_463_577_088)
    );
    assert_eq!(
        exp10(77),
        U256::from_words(
            0xDD15FE86AFFAD91249EF0EB713F39EBE,
            0xAA987B6E6FD2A0000000000000000000
        )
    );
}

#[test]
fn results_are_padded_and_errors_handed_on() {
    let answer = Answer {
        data: Some(b"abc".to_vec()),
        attributes: vec![
            (b"key".to_vec(), b"value".to_vec()),
            (b"12345678".to_vec(), Vec::new()),
        ],
    };
    let padded = pad_execute_result(Ok::<Answer, String>(answer), 4).unwrap();
    assert_eq!(padded.data, Some(b"abc ".to_vec()));
    assert_eq!(
        padded.attributes,
        vec![
            (b"key ".to_vec(), b"value   ".to_vec()),
            (b"12345678".to_vec(), Vec::new()),
        ]
    );
    let none = Answer {
        data: None,
        attributes: Vec::new(),
    };
    let padded = pad_execute_result(Ok::<Answer, String>(none), 4).unwrap();
    assert_eq!(padded.data, None);
    assert!(padded.attributes.is_empty());
    assert!(matches!(
        pad_execute_result(Err::<Answer, String>("no".to_string()), 4),
        Err(e) if e == "no"
    ));
    assert_eq!(
        pad_query_result(Ok::<Vec<u8>, String>(b"hello".to_vec()), 8),
        Ok(b"hello   ".to_vec())
    );
    assert_eq!(
        pad_query_result(Err::<Vec<u8>, String>("no".to_string()), 8),
        Err("no".to_string())
    );
    assert_eq!(padded_copy(b"ab", 3), b"ab ".to_vec());
    assert_eq!(message_block_size(0), 1);
    assert_eq!(message_block_size(256), 256);
}

#[test]
fn answers_are_taken_as_authentications() {
    let permit = QueryAnswer::ValidatePermit {
        user: "alice".to_string(),
        is_revoked: false,
    };
    assert_eq!(
        authenticate_arbitrary_permit(permit.clone(), b"data".to_vec()),
        Ok(PermitAuthentication {
            sender: "alice".to_string(),
            revoked: false,
            data: b"data".to_vec()
        })
    );
    assert_eq!(
        authenticate_permit(permit.clone(), 7u8),
        Ok(PermitAuthentication {
            sender: "alice".to_string(),
            revoked: false,
            data: 7u8
        })
    );
    let key = QueryAnswer::ValidateViewingKey { is_valid: true };
    assert_eq!(authenticate_vk(key.clone()), Ok(true));
    assert_eq!(
        authenticate_vk(QueryAnswer::ValidateViewingKey { is_valid: false }),
        Ok(false)
    );
    assert_eq!(authenticate_vk(permit), Err(AuthError::Unauthorized));
    assert_eq!(
        authenticate_arbitrary_permit(key.clone(), Vec::new()),
        Err(AuthError::UnexpectedResponse)
    );
    assert_eq!(authenticate_permit(key, 0u8), Err(AuthError::WrongResponse));
    let config = QueryAnswer::Config {
        admin: RawContract::new("admin", "hash"),
        state: ContractStatus::Default,
    };
    assert_eq!(authenticate_vk(config), Err(AuthError::Unauthorized));
    assert_eq!(
        AuthError::UnexpectedResponse.message(),
        "Unexpected response from query auth."
    );
    assert_eq!(AuthError::WrongResponse.message(), "Wrong query response");
    assert_eq!(AuthError::Unauthorized.message(), "Unauthorized");
}

#[test]
fn admins_are_validated_by_the_answer() {
    let yes = ValidateAdminPermissionResponse {
        has_permission: true,
    };
    let no = ValidateAdminPermissionResponse {
        has_permission: false,
    };
    assert_eq!(admin_is_valid(Ok::<_, String>(yes)), Ok(true));
    assert_eq!(admin_is_valid(Ok::<_, String>(no)), Ok(false));
    assert_eq!(
        admin_is_valid(Err::<ValidateAdminPermissionResponse, _>("down".to_string())),
        Err("down".to_string())
    );
    assert_eq!(
        validate_admin(true, AdminPermissions::SkyAdmin, "bob".to_string()),
        Ok(())
    );
    assert_eq!(
        validate_admin(false, AdminPermissions::SkyAdmin, "bob".to_string()),
        Err(Unauthorized {
            user: "bob".to_string(),
            permission: "SHADE_SKY_ADMIN".to_string()
        })
    );
}

#[test]
fn contracts_are_validated_by_the_validated_address() {
    let raw = RawContract::new("Addr", "code_hash");
    assert_eq!(
        raw.clone().validate(Ok::<String, String>("addr".to_string())),
        Ok(Contract::new("addr", "code_hash"))
    );
    assert_eq!(
        raw.validate(Err::<String, String>("bad".to_string())),
        Err("bad".to_string())
    );
    assert!(Contract::new("addr", "code_hash").is_valid());
    assert!(Contract::default().is_valid());
}

#[test]
fn keepers_and_their_messages() {
    let _keeper: IbcKeeper = IbcKeeper::new();
    let ask = IbcSudo::CheckBalance {
        channel_id: "c".to_string(),
        address: "a".to_string(),
    };
    assert_eq!(ask.clone(), ask);
}

#[test]
fn nothing_to_pad_needs_no_block_size() {
    let none = Answer {
        data: None,
        attributes: Vec::new(),
    };
    let padded = pad_execute_result(Ok::<Answer, String>(none), 0).unwrap();
    assert_eq!(padded.data, None);
    assert!(padded.attributes.is_empty());
    assert!(matches!(
        pad_execute_result(Err::<Answer, String>("no".to_string()), 0),
        Err(e) if e == "no"
    ));
    assert_eq!(
        pad_query_result(Err::<Vec<u8>, String>("no".to_string()), 0),
        Err("no".to_string())
    );
}

#[test]
fn a_rebase_holds_its_two_amounts() {
    let rebase = SimpleRebase::new(exp10(18), U256::from_words(1, 2));
    assert_eq!(rebase.elastic, exp10(18));
    assert_eq!(rebase.base.into_words(), (1, 2));
    assert_eq!(SimpleRebase::default().elastic, U256::from_words(0, 0));
}
