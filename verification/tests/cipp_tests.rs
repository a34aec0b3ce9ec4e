use power_automate_api::cipp::parse_messages_from_email_alert_body_v1;

const CIPP_EMAIL_BODY_TEST_DATA: &str = r#"<html>\r\n<head>\r\n<meta http-equiv=\"Content-Type\" content=\"text/html; charset=us-ascii\">\r\n</head>\r\n<body>\r\nYou've setup your alert policies to be alerted whenever specific events happen. We've found some of these events in the log:<br>\r\n<br>\r\n<style>table.blueTable{border:1px solid #1C6EA4;background-color:#EEE;width:100%;text-align:left;border-collapse:collapse}table.blueTable td,table.blueTable th{border:1px solid #AAA;padding:3px 2px}table.blueTable tbody td{font-size:13px}table.blueTable tr:nth-child(even){background:#D0E4F5}table.blueTable thead{background:#1C6EA4;background:-moz-linear-gradient(top,#5592bb 0,#327cad 66%,#1C6EA4 100%);background:-webkit-linear-gradient(top,#5592bb 0,#327cad 66%,#1C6EA4 100%);background:linear-gradient(to bottom,#5592bb 0,#327cad 66%,#1C6EA4 100%);border-bottom:2px solid #444}table.blueTable thead th{font-size:15px;font-weight:700;color:#FFF;border-left:2px solid #D0E4F5}table.blueTable thead th:first-child{border-left:none}table.blueTable tfoot{font-size:14px;font-weight:700;color:#FFF;background:#D0E4F5;background:-moz-linear-gradient(top,#dcebf7 0,#d4e6f6 66%,#D0E4F5 100%);background:-webkit-linear-gradient(top,#dcebf7 0,#d4e6f6 66%,#D0E4F5 100%);background:linear-gradient(to bottom,#dcebf7 0,#d4e6f6 66%,#D0E4F5 100%);border-top:2px solid #444}table.blueTable tfoot td{font-size:14px}table.blueTable tfoot .links{text-align:right}table.blueTable tfoot .links a{display:inline-block;background:#1C6EA4;color:#FFF;padding:2px 8px;border-radius:5px}</style>\r\n<table class=\"blueTable\">\r\n<colgroup><col><col><col><col><col></colgroup>\r\n<tbody>\r\n<tr>\r\n<th>Message</th>\r\n<th>API</th>\r\n<th>Tenant</th>\r\n<th>Username</th>\r\n<th>Severity</th>\r\n</tr>\r\n<tr>\r\n<td>MICROSOFT 365 BUSINESS STANDARD will expire in 141 days</td>\r\n<td>Alerts</td>\r\n<td>dummydomaina.com.au</td>\r\n<td>CIPP</td>\r\n<td>Alert</td>\r\n</tr>\r\n<tr>\r\n<td>EXCHANGE ONLINE (PLAN 2) will expire in 358 days</td>\r\n<td>Alerts</td>\r\n<td>dummydomainb.com.au</td>\r\n<td>CIPP</td>\r\n<td>Alert</td>\r\n</tr>\r\n<tr>\r\n<td>Microsoft Defender for Office 365 (Plan 1) will expire in 307 days</td>\r\n<td>Alerts</td>\r\n<td>dummydomainc.com.au</td>\r\n<td>CIPP</td>\r\n<td>Alert</td>\r\n</tr>\r\n</tbody>\r\n</table>\r\n</body>\r\n</html>\r\n;"#;

#[test]
fn test_parse_messages_from_email_alert_body_v1() {
    let output = parse_messages_from_email_alert_body_v1(
        CIPP_EMAIL_BODY_TEST_DATA.to_string(),
        vec!["dummydomainc.com.au".to_string()],
    )
    .unwrap();
    assert_eq!(
        output,
        (
            vec![
                "MICROSOFT 365 BUSINESS STANDARD will expire in 141 days (dummydomaina.com.au)"
                    .to_string(),
                "EXCHANGE ONLINE (PLAN 2) will expire in 358 days (dummydomainb.com.au)"
                    .to_string()
            ],
            vec![]
        )
    )
}

const SIMPLE_TABLE: &str = "<html><body><table>\
<tr><th>Message</th><th>API</th><th>Tenant</th><th>Username</th><th>Severity</th></tr>\
<tr><td>Disk space low</td><td>Alerts</td><td>tenantA</td><td>CIPP</td><td>Alert</td></tr>\
<tr><td>Password expires soon</td><td>Alerts</td><td>tenantB</td><td>CIPP</td><td>Alert</td></tr>\
<tr><td>Licence count exceeded</td><td>Alerts</td><td>tenantC</td><td>CIPP</td><td>Alert</td></tr>\
</table></body></html>";

#[test]
fn scenario_three_rows_no_exclusions() {
    let (messages, row_errors) =
        parse_messages_from_email_alert_body_v1(SIMPLE_TABLE.to_string(), vec![]).unwrap();
    assert_eq!(
        messages,
        vec![
            "Disk space low (tenantA)".to_string(),
            "Password expires soon (tenantB)".to_string(),
            "Licence count exceeded (tenantC)".to_string(),
        ]
    );
    assert_eq!(row_errors, Vec::<String>::new());
}

#[test]
fn scenario_excluded_tenant_contributes_nothing() {
    let (messages, row_errors) = parse_messages_from_email_alert_body_v1(
        SIMPLE_TABLE.to_string(),
        vec!["tenantC".to_string()],
    )
    .unwrap();
    assert_eq!(
        messages,
        vec![
            "Disk space low (tenantA)".to_string(),
            "Password expires soon (tenantB)".to_string(),
        ]
    );
    assert_eq!(row_errors, Vec::<String>::new());
}

#[test]
fn scenario_malformed_row_yields_one_error() {
    let body = "<table>\
<tr><th>Message</th><th>API</th><th>Tenant</th><th>Username</th><th>Severity</th></tr>\
<tr><td>Disk space low</td><td>Alerts</td><td>tenantA</td><td>CIPP</td><td>Alert</td></tr>\
<tr><td>only field</td><td>Alerts</td><td>CIPP</td><td>Alert</td></tr>\
</table>";
    let (messages, row_errors) =
        parse_messages_from_email_alert_body_v1(body.to_string(), vec![]).unwrap();
    assert_eq!(messages, vec!["Disk space low (tenantA)".to_string()]);
    assert_eq!(
        row_errors,
        vec![
            "Something is wrong with data extracted from row, expected exactly 2 useful fields, skipping this one in output: [\"only field\"]"
                .to_string()
        ]
    );
}

#[test]
fn scenario_special_character_exclusion_is_rejected() {
    let result = parse_messages_from_email_alert_body_v1(
        SIMPLE_TABLE.to_string(),
        vec!["a(".to_string()],
    );
    assert_eq!(
        result,
        Err(
            "Invalid input for generating dynamic matching rule, domain exclusions must contain literal text only"
                .to_string()
        )
    );
}

#[test]
fn plain_punctuation_in_exclusions_is_accepted() {
    let result = parse_messages_from_email_alert_body_v1(
        SIMPLE_TABLE.to_string(),
        vec!["tenant.example-host.com".to_string()],
    );
    assert!(result.is_ok());
}

#[test]
fn header_only_table_yields_empty_outputs() {
    let body = "<table><tr><th>Message</th><th>API</th><th>Tenant</th><th>Username</th>\
<th>Severity</th></tr></table>";
    let (messages, row_errors) =
        parse_messages_from_email_alert_body_v1(body.to_string(), vec![]).unwrap();
    assert_eq!(messages, Vec::<String>::new());
    assert_eq!(row_errors, Vec::<String>::new());
}

#[test]
fn body_without_table_yields_empty_outputs() {
    let (messages, row_errors) =
        parse_messages_from_email_alert_body_v1("no table here".to_string(), vec![]).unwrap();
    assert_eq!(messages, Vec::<String>::new());
    assert_eq!(row_errors, Vec::<String>::new());
}

#[test]
fn crlf_escapes_are_removed_before_matching() {
    let body = "<t\\r\\nr><td>Disk space low</td><td>tenantA</td></t\\r\\nr>\
<tr><td>Password expires soon</td><td>tenantB</td></tr>";
    let (messages, row_errors) =
        parse_messages_from_email_alert_body_v1(body.to_string(), vec![]).unwrap();
    assert_eq!(messages, vec!["Password expires soon (tenantB)".to_string()]);
    assert_eq!(row_errors, Vec::<String>::new());
}

#[test]
fn zero_fields_row_error_lists_empty_set() {
    let body = "<table>\
<tr><th>h</th></tr>\
<tr><td>Alerts</td><td>CIPP</td></tr>\
</table>";
    let (messages, row_errors) =
        parse_messages_from_email_alert_body_v1(body.to_string(), vec![]).unwrap();
    assert_eq!(messages, Vec::<String>::new());
    assert_eq!(
        row_errors,
        vec![
            "Something is wrong with data extracted from row, expected exactly 2 useful fields, skipping this one in output: []"
                .to_string()
        ]
    );
}

#[test]
fn exclusion_matches_raw_row_text_not_only_fields() {
    // The domain exclusion is matched against the whole row fragment,
    // markers included, before any field is extracted.
    let (messages, _) = parse_messages_from_email_alert_body_v1(
        SIMPLE_TABLE.to_string(),
        vec!["<td>tenantB</td>".to_string()],
    )
    .unwrap();
    assert_eq!(
        messages,
        vec![
            "Disk space low (tenantA)".to_string(),
            "Licence count exceeded (tenantC)".to_string(),
        ]
    );
}
