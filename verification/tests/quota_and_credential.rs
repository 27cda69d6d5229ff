use pipeline_core::credential::Credential;
use pipeline_core::quota::{ShowTenantQuotaInterpreter, TenantQuota};

#[test]
fn test_show_tenant_quota_interpreter() {
    let interpreter = ShowTenantQuotaInterpreter::try_create();
    assert_eq!(interpreter.name(), "ShowTenantQuotaInterpreter");
    // A fresh tenant reports all-zero ceilings, one value per column.
    let quota = TenantQuota {
        max_databases: 0,
        max_tables_per_database: 0,
        max_stages: 0,
        max_files_per_stage: 0,
    };
    let names = interpreter.column_names();
    assert_eq!(
        names,
        vec!["max_databases", "max_tables_per_database", "max_stages", "max_files_per_stage"]
    );
    let row = interpreter.execute(&quota);
    assert_eq!(row, vec![0, 0, 0, 0]);
}

#[test]
fn quota_row_reports_the_four_ceilings_in_column_order() {
    let interpreter = ShowTenantQuotaInterpreter::try_create();
    let quota = TenantQuota {
        max_databases: 3,
        max_tables_per_database: 50,
        max_stages: 7,
        max_files_per_stage: 1000,
    };
    assert_eq!(interpreter.execute(&quota), vec![3, 50, 7, 1000]);
}

#[test]
fn credentials_carry_their_fields() {
    let c = Credential::basic("user".to_string(), "pass".to_string());
    match c {
        Credential::Basic { username, password } => {
            assert_eq!(username, "user");
            assert_eq!(password, "pass");
        }
        other => panic!("expected basic credential, got {:?}", other),
    }
    let h = Credential::hmac("ak".to_string(), "sk".to_string());
    match h {
        Credential::HMAC { access_key_id, secret_access_key } => {
            assert_eq!(access_key_id, "ak");
            assert_eq!(secret_access_key, "sk");
        }
        other => panic!("expected hmac credential, got {:?}", other),
    }
    let t = Credential::token("tok".to_string());
    match t {
        Credential::Token(tok) => assert_eq!(tok, "tok"),
        other => panic!("expected token credential, got {:?}", other),
    }
}
