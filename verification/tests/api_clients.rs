use pear_reviewer::api_clients::{ClientSet, PermitLimiter, MAX_IN_FLIGHT_PER_HOST};

#[test]
fn get_env_name_api_endpoint_for_host() {
    let (env_name, api_endpoint) = pear_reviewer::api_clients::get_env_name_api_endpoint_for_host("github.com");
    assert_eq!(env_name, "GITHUB_TOKEN");
    assert_eq!(api_endpoint, "https://api.github.com");

    let (env_name, api_endpoint) =
        pear_reviewer::api_clients::get_env_name_api_endpoint_for_host("github.example.com");
    assert_eq!(env_name, "GITHUB_EXAMPLE_COM_TOKEN");
    assert_eq!(api_endpoint, "https://github.example.com/api/v3");
}

#[test]
fn env_name_strips_leading_github_marker() {
    let (env_name, _) =
        pear_reviewer::api_clients::get_env_name_api_endpoint_for_host("github.github.org");
    // "GITHUB_GITHUB_ORG" loses every leading "GITHUB_" before the
    // prefix is put back on
    assert_eq!(env_name, "GITHUB_ORG_TOKEN");
}

#[test]
fn client_set_reuses_client_per_host() {
    let mut clients = ClientSet::new();
    let a = clients.get_client("github.com");
    let b = clients.get_client("github.example.com");
    let c = clients.get_client("github.com");
    assert_eq!(a, 0);
    assert_eq!(b, 1);
    assert_eq!(c, 0);
    assert_eq!(clients.clients.len(), 2);
    assert_eq!(clients.clients[0].env_name, "GITHUB_TOKEN");
    assert_eq!(clients.clients[0].api_endpoint, "https://api.github.com");
    assert_eq!(clients.clients[1].env_name, "GITHUB_EXAMPLE_COM_TOKEN");
    assert_eq!(
        clients.clients[1].api_endpoint,
        "https://github.example.com/api/v3"
    );
}

// A fake gateway: tasks repeatedly try to start a call through the
// limiter and later finish it; the observed number of in-flight calls
// never exceeds the host-scoped ceiling.
#[test]
fn concurrency_ceiling_is_never_exceeded() {
    let mut limiter = PermitLimiter::new();
    let tasks: usize = 20;
    let mut started: usize = 0;
    let mut finished: usize = 0;
    let mut in_flight: usize = 0;
    let mut max_observed: usize = 0;
    // a deterministic schedule: grab permits as long as they are
    // granted, then finish one call, until every task ran
    while finished < tasks {
        let mut granted_any = false;
        while started < tasks && limiter.try_acquire() {
            started += 1;
            in_flight += 1;
            granted_any = true;
            if in_flight > max_observed {
                max_observed = in_flight;
            }
        }
        assert!(in_flight <= MAX_IN_FLIGHT_PER_HOST as usize);
        limiter.release();
        in_flight -= 1;
        finished += 1;
        if started < tasks {
            assert!(granted_any || in_flight + 1 == MAX_IN_FLIGHT_PER_HOST as usize);
        }
    }
    assert_eq!(max_observed, MAX_IN_FLIGHT_PER_HOST as usize);
}

#[test]
fn try_acquire_denies_at_ceiling() {
    let mut limiter = PermitLimiter::new();
    for _ in 0..MAX_IN_FLIGHT_PER_HOST {
        assert!(limiter.try_acquire());
    }
    assert!(!limiter.try_acquire());
    limiter.release();
    assert!(limiter.try_acquire());
}

// The derivation uses Unicode upper-casing, as the provider host name is
// fed through the platform's uppercase mapping.
#[test]
fn env_name_uses_unicode_uppercase() {
    let (env_name, _) =
        pear_reviewer::api_clients::get_env_name_api_endpoint_for_host("stra\u{00df}e.example");
    assert_eq!(env_name, "GITHUB_STRASSE_EXAMPLE_TOKEN");
}
