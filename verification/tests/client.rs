use bpfjailer::client::enrollment::{EnrollmentClient, EnrollmentRequest, EnrollmentResponse};
use bpfjailer::common::{PodId, RoleId};

#[test]
fn client_keeps_its_socket_path() {
    let c = EnrollmentClient::new("/run/x.sock");
    assert_eq!(c.socket_path(), "/run/x.sock");
}

#[test]
fn client_asks_to_enroll_and_to_query() {
    let c = EnrollmentClient::new("/run/x.sock");
    assert!(matches!(
        c.enroll_request(PodId(7), RoleId(3)),
        EnrollmentRequest::Enroll { pod_id: PodId(7), role_id: RoleId(3) }
    ));
    assert!(matches!(c.query_request(42), EnrollmentRequest::Query { pid: 42 }));
}

#[test]
fn client_reads_the_answer_to_an_enrollment() {
    let c = EnrollmentClient::new("s");
    assert_eq!(c.enroll_result(EnrollmentResponse::Success), Ok(()));
    assert_eq!(
        c.enroll_result(EnrollmentResponse::Error("Unknown role ID: 9".to_string())),
        Err("Enrollment failed: Unknown role ID: 9".to_string())
    );
    assert_eq!(
        c.enroll_result(EnrollmentResponse::Enrolled { cgroup: "/bpfjailer/x".to_string() }),
        Err("Unexpected response type".to_string())
    );
}

#[test]
fn client_reads_the_answer_to_a_query() {
    let c = EnrollmentClient::new("s");
    assert_eq!(
        c.query_result(EnrollmentResponse::ProcessInfo { pod_id: PodId(1), role_id: RoleId(2) }),
        Ok((PodId(1), RoleId(2)))
    );
    assert_eq!(
        c.query_result(EnrollmentResponse::Error("Process not found or not enrolled".to_string())),
        Err("Query failed: Process not found or not enrolled".to_string())
    );
    assert_eq!(
        c.query_result(EnrollmentResponse::Success),
        Err("Unexpected response type".to_string())
    );
}
