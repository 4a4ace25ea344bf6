use telfhash_rs::legacy::{legacy_records, render_msg, render_telfhash, LegacyTelfhashRecord};
use telfhash_rs::model::{NoSymbolsReason, TelfhashResult};

#[test]
fn maps_digest_tnull_and_error_to_legacy_shape() {
    let digest = TelfhashResult::digest("sample".to_string(), "T1ABC".to_string());
    let tnull = TelfhashResult::null_digest("sample".to_string());
    let error = TelfhashResult::failure("broken".to_string(), "Could not parse file as ELF");

    assert_eq!(render_telfhash(&digest), "t1abc");
    assert_eq!(render_telfhash(&tnull), "tnull");
    assert_eq!(render_telfhash(&error), "-");
    assert_eq!(render_msg(&error), "Could not parse file as ELF");
}

#[test]
fn builds_legacy_json_rows() {
    let results = vec![
        TelfhashResult::digest("sample".to_string(), "T1ABC".to_string()),
        TelfhashResult::no_symbols("dir\\empty".to_string(), NoSymbolsReason::FilteredOut),
        TelfhashResult::invalid_elf("bad".to_string()),
    ];

    assert_eq!(
        legacy_records(&results),
        vec![
            LegacyTelfhashRecord {
                file: "sample".to_string(),
                telfhash: "t1abc".to_string(),
                msg: String::new(),
            },
            LegacyTelfhashRecord {
                file: "dir/empty".to_string(),
                telfhash: "-".to_string(),
                msg: String::new(),
            },
            LegacyTelfhashRecord {
                file: "bad".to_string(),
                telfhash: "-".to_string(),
                msg: "Could not parse file as ELF".to_string(),
            },
        ]
    );
}
