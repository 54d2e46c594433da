use bencher::messenger::button::{finish_html, ButtonBody};

fn body() -> ButtonBody {
    ButtonBody {
        title: "Confirm".to_string(),
        preheader: "pre".to_string(),
        greeting: "Hi Ada,".to_string(),
        pre_body: "Please confirm.".to_string(),
        button_text: "Confirm Email".to_string(),
        button_url: "https://bencher.dev/auth/confirm".to_string(),
        clipboard_text: "Token".to_string(),
        clipboard_target: "abc123".to_string(),
        post_body: "Thanks.".to_string(),
        closing: "Cheers,".to_string(),
        signature: "The Bencher Team".to_string(),
        settings_url: "https://bencher.dev/console/settings/email".to_string(),
    }
}

#[test]
fn text_body_lays_out_every_part() {
    assert_eq!(
        body().text(),
        "\nHi Ada,\nPlease confirm.\nConfirm Email: https://bencher.dev/auth/confirm\nToken: abc123\nThanks.\nCheers,\nThe Bencher Team\nBencher - Continuous Benchmarking\nManage email settings (https://bencher.dev/console/settings/email)"
    );
}

#[test]
fn html_template_places_every_part() {
    let html = body().html_template();
    assert!(html.starts_with("<!doctype html>\n<html>\n  <head>\n"));
    assert_eq!(html.matches("<title>Confirm</title>").count(), 1);
    assert!(html.contains("<h1 class=\"title\">Confirm</h1>"));
    assert!(html.contains(">pre</span>"));
    assert!(html.contains("<p>Hi Ada,</p>"));
    assert!(html.contains("href=\"https://bencher.dev/auth/confirm\" target=\"_blank\""));
    assert!(html.contains(">Confirm Email</a>"));
    assert!(html.contains("abc123"));
    assert!(!html.contains("Token"));
    assert!(html.contains("<a href=\"https://bencher.dev/console/settings/email\">Manage email settings</a>"));
    assert!(html.contains("function copy_to_clipboard(id) {\n"));
    assert!(html.ends_with("</html>\n"));
}

#[test]
fn html_keeps_the_content() {
    let html = body().html();
    assert!(html.contains("Confirm Email"));
    assert!(html.contains("abc123"));
}

#[test]
fn finish_html_falls_back_to_the_template() {
    assert_eq!(finish_html("a".to_string(), Some("b".to_string())), "b");
    assert_eq!(finish_html("a".to_string(), None), "a");
}
