use actix_gcd::form::{parse_parameters, GcdParameters};
use actix_gcd::respond::{get_index, post_gcd, Status, HTML, INDEX_PAGE};
use actix_gcd::validate::ZERO_INPUT_MESSAGE;

#[test]
fn status_codes() {
    assert_eq!(Status::Success.code(), 200);
    assert_eq!(Status::BadRequest.code(), 400);
}

#[test]
fn post_48_and_18_answers_6() {
    let response = post_gcd(GcdParameters { n: 48, m: 18 });
    assert_eq!(response.status.code(), 200);
    assert_eq!(response.content_type, "text/html");
    assert!(response.body.contains("is <b>6</b>"));
    assert_eq!(response.body, "The greatest common divisor of the numbers 48 and 18 is <b>6</b>");
}

#[test]
fn post_17_and_5_answers_1() {
    let response = post_gcd(GcdParameters { n: 17, m: 5 });
    assert_eq!(response.status.code(), 200);
    assert_eq!(response.content_type, "text/html");
    assert!(response.body.contains("is <b>1</b>"));
    assert_eq!(response.body, "The greatest common divisor of the numbers 17 and 5 is <b>1</b>");
}

#[test]
fn post_of_the_largest_numbers() {
    let response = post_gcd(GcdParameters { n: u64::MAX, m: u64::MAX });
    assert_eq!(response.status, Status::Success);
    assert_eq!(
        response.body,
        "The greatest common divisor of the numbers 18446744073709551615 and 18446744073709551615 is <b>18446744073709551615</b>"
    );
}

#[test]
fn post_with_zero_n_is_refused() {
    let response = post_gcd(GcdParameters { n: 0, m: 5 });
    assert_eq!(response.status, Status::BadRequest);
    assert_eq!(response.status.code(), 400);
    assert_eq!(response.content_type, "text/html");
    assert_eq!(response.body, "Computing the GCD with zero is boring.");
}

#[test]
fn post_with_zero_m_is_refused() {
    let response = post_gcd(GcdParameters { n: 5, m: 0 });
    assert_eq!(response.status.code(), 400);
    assert_eq!(response.content_type, "text/html");
    assert_eq!(response.body, "Computing the GCD with zero is boring.");
}

#[test]
fn post_with_two_zeros_is_refused() {
    let response = post_gcd(GcdParameters { n: 0, m: 0 });
    assert_eq!(response.status.code(), 400);
    assert_eq!(response.body, "Computing the GCD with zero is boring.");
}

#[test]
fn post_answers_by_the_numbers_alone() {
    for n in 0..30u64 {
        for m in 0..30u64 {
            let response = post_gcd(GcdParameters { n, m });
            if n == 0 || m == 0 {
                assert_eq!(response.status, Status::BadRequest);
                assert_eq!(response.body, "Computing the GCD with zero is boring.");
            } else {
                assert_eq!(response.status, Status::Success);
                let mut g = 1;
                for d in 1..=n {
                    if n % d == 0 && m % d == 0 {
                        g = d;
                    }
                }
                assert_eq!(
                    response.body,
                    format!("The greatest common divisor of the numbers {} and {} is <b>{}</b>", n, m, g)
                );
            }
        }
    }
}

#[test]
fn index_offers_the_form() {
    let response = get_index();
    assert_eq!(response.status.code(), 200);
    assert_eq!(response.content_type, "text/html");
    assert!(response.body.contains("<form action=\"/gcd\" method=\"post\">"));
    assert!(response.body.contains("<input type=\"text\" name=\"n\" />"));
    assert!(response.body.contains("<input type=\"text\" name=\"m\" />"));
    assert!(response.body.contains("<button type=\"submit\">Compute GCD</button>"));
    assert!(response.body.contains("<title>GCD Calculator</title>"));
}

#[test]
fn index_is_the_same_page_every_time() {
    assert_eq!(get_index().body, get_index().body);
    assert_eq!(
        get_index().body,
        r#"
        <title>GCD Calculator</title>
        <form action="/gcd" method="post">
        <input type="text" name="n" />
        <input type="text" name="m" />
        <button type="submit">Compute GCD</button>
        "#
    );
}

#[test]
fn a_submitted_form_is_answered() {
    let form = parse_parameters(b"n=48&m=18").unwrap();
    let response = post_gcd(form);
    assert_eq!(response.status.code(), 200);
    assert!(response.body.contains("is <b>6</b>"));
}

#[test]
fn a_submitted_zero_is_refused() {
    let form = parse_parameters(b"n=0&m=5").unwrap();
    let response = post_gcd(form);
    assert_eq!(response.status.code(), 400);
    assert_eq!(response.body, "Computing the GCD with zero is boring.");
}

#[test]
fn fixed_texts() {
    assert_eq!(HTML, "text/html");
    assert_eq!(ZERO_INPUT_MESSAGE, "Computing the GCD with zero is boring.");
    assert!(INDEX_PAGE.contains("action=\"/gcd\""));
    assert_eq!(get_index().body, INDEX_PAGE);
}
