//! The e-mail body with a call-to-action button.
use vstd::prelude::*;

verus! {

/// An e-mail message with a greeting, a button that opens a link, a code
/// to copy and a footer with the link to the e-mail settings.
pub struct ButtonBody {
    pub title: String,
    pub preheader: String,
    pub greeting: String,
    pub pre_body: String,
    pub button_text: String,
    pub button_url: String,
    pub clipboard_text: String,
    pub clipboard_target: String,
    pub post_body: String,
    pub closing: String,
    pub signature: String,
    pub settings_url: String,
}
pub const TEXT_0: &'static str = "\n";
pub const TEXT_1: &'static str = "\n";
pub const TEXT_2: &'static str = "\n";
pub const TEXT_3: &'static str = ": ";
pub const TEXT_4: &'static str = "\n";
pub const TEXT_5: &'static str = ": ";
pub const TEXT_6: &'static str = "\n";
pub const TEXT_7: &'static str = "\n";
pub const TEXT_8: &'static str = "\n";
pub const TEXT_9: &'static str = "\nBencher - Continuous Benchmarking\nManage email settings (";
pub const TEXT_10: &'static str = ")";

pub const HTML_0: &'static str = "<!doctype html>\n<html>\n  <head>\n    <meta charset=\"utf-8\" />\n    <meta name=\"viewport\" content=\"width=device-width, initial-scale=1, shrink-to-fit=no\" />\n    <meta name=\"theme-color\" content=\"#ffffff\" />\n    <title>";
pub const HTML_1: &'static str = "</title>\n    <link rel=\"stylesheet\" href=\"https://cdn.jsdelivr.net/npm/bulma@0.9.4/css/bulma.min.css\">\n    <script defer src=\"https://use.fontawesome.com/releases/v5.15.4/js/all.js\"></script>\n  </head>\n  <body>\n    <span class=\"preheader\" style=\"\n    color: transparent;\n    display: none;\n    height: 0;\n    max-height: 0;\n    max-width: 0;\n    opacity: 0;\n    overflow: hidden;\n    mso-hide: all;\n    visibility: hidden;\n    width: 0;\n    \">";
pub const HTML_2: &'static str = "</span>\n    <section class=\"section\">\n    <div class=\"container\">\n    <div class=\"box\">\n      <div class=\"columns is-centered\">\n        <div class=\"column\">\n          <h1 class=\"title\">";
pub const HTML_3: &'static str = "</h1>\n          <br/>\n          <p>";
pub const HTML_4: &'static str = "</p>\n          <p>";
pub const HTML_5: &'static str = "</p>\n          <br/>\n          <div class=\"columns is-centered\">\n            <div class=\"column\">\n              <div class=\"content has-text-centered\">\n                <a class=\"button is-medium is-responsive\" href=\"";
pub const HTML_6: &'static str = "\" target=\"_blank\" style=\"color:white;background-color:#fc7300;\">";
pub const HTML_7: &'static str = "</a>\n              </div>\n            </div>\n          </div>\n          <br/>\n          <div class=\"content has-text-centered\">\n            <small>\n              <code style=\"overflow-wrap:anywhere;\">\n                  ";
pub const HTML_8: &'static str = "\n              </code>\n            </small>\n          </div>\n          <p>";
pub const HTML_9: &'static str = "</p>\n          <br/>\n          <p>";
pub const HTML_10: &'static str = "</p>\n          <p>";
pub const HTML_11: &'static str = "</p>\n          <br/>\n          <hr/>\n          <div class=\"content has-text-centered\">\n            <p>Bencher - Continuous Benchmarking</p>\n            <a href=\"";
pub const HTML_12: &'static str = "\">Manage email settings</a>\n          </div>\n        </div>\n      </div>\n    </div>\n    </div>\n    </section>\n  </body>\n  <script>\n    function copy_to_clipboard(id) {\n        navigator.clipboard.writeText(document.getElementById(id)?.innerHTML);\n    }\n  </script>\n</html>\n";

/// The plain-text body.
pub open spec fn text_of(b: &ButtonBody) -> Seq<char> {
    TEXT_0@ + b.greeting@ + TEXT_1@ + b.pre_body@ + TEXT_2@ + b.button_text@ + TEXT_3@ + b.button_url@ + TEXT_4@ + b.clipboard_text@ + TEXT_5@ + b.clipboard_target@ + TEXT_6@ + b.post_body@ + TEXT_7@ + b.closing@ + TEXT_8@ + b.signature@ + TEXT_9@ + b.settings_url@ + TEXT_10@
}

/// The HTML body before its CSS is inlined.
pub open spec fn html_of(b: &ButtonBody) -> Seq<char> {
    HTML_0@ + b.title@ + HTML_1@ + b.preheader@ + HTML_2@ + b.title@ + HTML_3@ + b.greeting@ + HTML_4@ + b.pre_body@ + HTML_5@ + b.button_url@ + HTML_6@ + b.button_text@ + HTML_7@ + b.clipboard_target@ + HTML_8@ + b.post_body@ + HTML_9@ + b.closing@ + HTML_10@ + b.signature@ + HTML_11@ + b.settings_url@ + HTML_12@
}

impl ButtonBody {
    /// The plain-text body: the greeting, the text before the button, the
    /// button's label and link, the text to copy, the closing, the
    /// signature and the footer.
    pub fn text(&self) -> (res: String)
        ensures
            res@ == text_of(self),
    {
        let mut s = String::new();
        s.append(TEXT_0);
        s.append(self.greeting.as_str());
        s.append(TEXT_1);
        s.append(self.pre_body.as_str());
        s.append(TEXT_2);
        s.append(self.button_text.as_str());
        s.append(TEXT_3);
        s.append(self.button_url.as_str());
        s.append(TEXT_4);
        s.append(self.clipboard_text.as_str());
        s.append(TEXT_5);
        s.append(self.clipboard_target.as_str());
        s.append(TEXT_6);
        s.append(self.post_body.as_str());
        s.append(TEXT_7);
        s.append(self.closing.as_str());
        s.append(TEXT_8);
        s.append(self.signature.as_str());
        s.append(TEXT_9);
        s.append(self.settings_url.as_str());
        s.append(TEXT_10);
        assert(s@ =~= text_of(self));
        s
    }

    /// The HTML body before its CSS is inlined.
    pub fn html_template(&self) -> (res: String)
        ensures
            res@ == html_of(self),
    {
        let mut s = String::new();
        s.append(HTML_0);
        s.append(self.title.as_str());
        s.append(HTML_1);
        s.append(self.preheader.as_str());
        s.append(HTML_2);
        s.append(self.title.as_str());
        s.append(HTML_3);
        s.append(self.greeting.as_str());
        s.append(HTML_4);
        s.append(self.pre_body.as_str());
        s.append(HTML_5);
        s.append(self.button_url.as_str());
        s.append(HTML_6);
        s.append(self.button_text.as_str());
        s.append(HTML_7);
        s.append(self.clipboard_target.as_str());
        s.append(HTML_8);
        s.append(self.post_body.as_str());
        s.append(HTML_9);
        s.append(self.closing.as_str());
        s.append(HTML_10);
        s.append(self.signature.as_str());
        s.append(HTML_11);
        s.append(self.settings_url.as_str());
        s.append(HTML_12);
        assert(s@ =~= html_of(self));
        s
    }

    /// The HTML body with the CSS of its stylesheets inlined into the
    /// elements. The inliner fetches the linked stylesheet over the network;
    /// where it fails, the body is sent with its stylesheet link as it is.
    /// What the inliner gives back rests on what the network answers, so no
    /// clause states the result; `html_template` states the HTML handed to
    /// the inliner and `finish_html` the choice between the two.
    pub fn html(&self) -> String {
        let html = self.html_template();
        let inlined = inline_css(html.as_str());
        finish_html(html, inlined)
    }
}

/// The body that is sent: the inlined HTML where inlining succeeded, else
/// the HTML as it was.
pub fn finish_html(html: String, inlined: Option<String>) -> (res: String)
    ensures
        res@ == match inlined {
            Some(s) => s@,
            None => html@,
        },
{
    match inlined {
        Some(s) => s,
        None => html,
    }
}

/// `css_inline::inline` with its default options, `None` where it returns
/// an error. Those options load every linked stylesheet over the network,
/// so its result rests on what the network gives back and nothing is stated
/// of it.
#[verifier::external_body]
fn inline_css(html: &str) -> (res: Option<String>) {
    css_inline::inline(html).ok()
}

/// Whether `s` begins with `p`.
pub open spec fn begins_with(s: Seq<char>, p: Seq<char>) -> bool {
    p.len() <= s.len() && s.subrange(0, p.len() as int) == p
}

/// Whether `s` ends with `p`.
pub open spec fn ends_with(s: Seq<char>, p: Seq<char>) -> bool {
    p.len() <= s.len() && s.subrange(s.len() - p.len(), s.len() as int) == p
}

/// The HTML of a body with its parts filled into fixed markup `m`: the
/// title (twice), the preheader, the greeting, the text before the button,
/// the button's link and label, the text to copy, the text after it, the
/// closing, the signature and the settings link, in that order.
pub open spec fn filled(m: Seq<Seq<char>>, b: &ButtonBody) -> Seq<char> {
    m[0] + b.title@ + m[1] + b.preheader@ + m[2] + b.title@ + m[3] + b.greeting@ + m[4] + b.pre_body@ + m[5] + b.button_url@ + m[6] + b.button_text@ + m[7] + b.clipboard_target@ + m[8] + b.post_body@ + m[9] + b.closing@ + m[10] + b.signature@ + m[11] + b.settings_url@ + m[12]
}

/// Whether markup `m` puts each part in its slot: the title inside
/// `<title>` and again inside the page heading, the preheader at the end of
/// its hidden span, the greeting and the texts around the button each in a
/// paragraph, the link as the button's target and its label as the button's
/// text, the text to copy inside the code block, the text after it, the
/// closing and the signature each in a paragraph, and the settings link as
/// the target of "Manage email settings".
pub open spec fn slots_in_place(m: Seq<Seq<char>>) -> bool {
    &&& m.len() == 13
    &&& begins_with(m[0], "<!doctype html>"@)
    &&& ends_with(m[0], "<title>"@)
    &&& begins_with(m[1], "</title>"@)
    &&& ends_with(m[1], "\">"@)
    &&& begins_with(m[2], "</span>"@)
    &&& ends_with(m[2], "<h1 class=\"title\">"@)
    &&& begins_with(m[3], "</h1>"@)
    &&& ends_with(m[3], "<p>"@)
    &&& begins_with(m[4], "</p>"@)
    &&& ends_with(m[4], "<p>"@)
    &&& begins_with(m[5], "</p>"@)
    &&& ends_with(m[5], "href=\""@)
    &&& begins_with(m[6], "\" target=\"_blank\""@)
    &&& ends_with(m[6], ">"@)
    &&& begins_with(m[7], "</a>"@)
    &&& ends_with(m[7], "<code style=\"overflow-wrap:anywhere;\">\n                  "@)
    &&& begins_with(m[8], "\n              </code>"@)
    &&& ends_with(m[8], "<p>"@)
    &&& begins_with(m[9], "</p>"@)
    &&& ends_with(m[9], "<p>"@)
    &&& begins_with(m[10], "</p>"@)
    &&& ends_with(m[10], "<p>"@)
    &&& begins_with(m[11], "</p>"@)
    &&& ends_with(m[11], "<a href=\""@)
    &&& begins_with(m[12], "\">Manage email settings</a>"@)
    &&& ends_with(m[12], "</html>\n"@)
}

/// The HTML body is one fixed document with the parts of the body in their
/// slots: there is one markup, whatever the body, that `html_template`
/// fills with the parts, each in its slot and in order.
pub proof fn lemma_html_template_slots()
    ensures
        exists|m: Seq<Seq<char>>|
            slots_in_place(m) && forall|b: &ButtonBody| #[trigger] html_of(b) == filled(m, b),
{
    reveal_strlit("<!doctype html>\n<html>\n  <head>\n    <meta charset=\"utf-8\" />\n    <meta name=\"viewport\" content=\"width=device-width, initial-scale=1, shrink-to-fit=no\" />\n    <meta name=\"theme-color\" content=\"#ffffff\" />\n    <title>");
    reveal_strlit("</title>\n    <link rel=\"stylesheet\" href=\"https://cdn.jsdelivr.net/npm/bulma@0.9.4/css/bulma.min.css\">\n    <script defer src=\"https://use.fontawesome.com/releases/v5.15.4/js/all.js\"></script>\n  </head>\n  <body>\n    <span class=\"preheader\" style=\"\n    color: transparent;\n    display: none;\n    height: 0;\n    max-height: 0;\n    max-width: 0;\n    opacity: 0;\n    overflow: hidden;\n    mso-hide: all;\n    visibility: hidden;\n    width: 0;\n    \">");
    reveal_strlit("</span>\n    <section class=\"section\">\n    <div class=\"container\">\n    <div class=\"box\">\n      <div class=\"columns is-centered\">\n        <div class=\"column\">\n          <h1 class=\"title\">");
    reveal_strlit("</h1>\n          <br/>\n          <p>");
    reveal_strlit("</p>\n          <p>");
    reveal_strlit("</p>\n          <br/>\n          <div class=\"columns is-centered\">\n            <div class=\"column\">\n              <div class=\"content has-text-centered\">\n                <a class=\"button is-medium is-responsive\" href=\"");
    reveal_strlit("\" target=\"_blank\" style=\"color:white;background-color:#fc7300;\">");
    reveal_strlit("</a>\n              </div>\n            </div>\n          </div>\n          <br/>\n          <div class=\"content has-text-centered\">\n            <small>\n              <code style=\"overflow-wrap:anywhere;\">\n                  ");
    reveal_strlit("\n              </code>\n            </small>\n          </div>\n          <p>");
    reveal_strlit("</p>\n          <br/>\n          <p>");
    reveal_strlit("</p>\n          <p>");
    reveal_strlit("</p>\n          <br/>\n          <hr/>\n          <div class=\"content has-text-centered\">\n            <p>Bencher - Continuous Benchmarking</p>\n            <a href=\"");
    reveal_strlit("\">Manage email settings</a>\n          </div>\n        </div>\n      </div>\n    </div>\n    </div>\n    </section>\n  </body>\n  <script>\n    function copy_to_clipboard(id) {\n        navigator.clipboard.writeText(document.getElementById(id)?.innerHTML);\n    }\n  </script>\n</html>\n");
    reveal_strlit("<!doctype html>");
    reveal_strlit("<title>");
    reveal_strlit("</title>");
    reveal_strlit("\">");
    reveal_strlit("</span>");
    reveal_strlit("<h1 class=\"title\">");
    reveal_strlit("</h1>");
    reveal_strlit("<p>");
    reveal_strlit("</p>");
    reveal_strlit("<p>");
    reveal_strlit("</p>");
    reveal_strlit("href=\"");
    reveal_strlit("\" target=\"_blank\"");
    reveal_strlit(">");
    reveal_strlit("</a>");
    reveal_strlit("<code style=\"overflow-wrap:anywhere;\">\n                  ");
    reveal_strlit("\n              </code>");
    reveal_strlit("<p>");
    reveal_strlit("</p>");
    reveal_strlit("<p>");
    reveal_strlit("</p>");
    reveal_strlit("<p>");
    reveal_strlit("</p>");
    reveal_strlit("<a href=\"");
    reveal_strlit("\">Manage email settings</a>");
    reveal_strlit("</html>\n");
    let m = seq![HTML_0@, HTML_1@, HTML_2@, HTML_3@, HTML_4@, HTML_5@, HTML_6@, HTML_7@, HTML_8@, HTML_9@, HTML_10@, HTML_11@, HTML_12@];
    assert(m[0] == HTML_0@);
    assert(HTML_0@.subrange(0, "<!doctype html>"@.len() as int) =~= "<!doctype html>"@);
    assert(HTML_0@.subrange(HTML_0@.len() - "<title>"@.len(), HTML_0@.len() as int) =~= "<title>"@);
    assert(m[1] == HTML_1@);
    assert(HTML_1@.subrange(0, "</title>"@.len() as int) =~= "</title>"@);
    assert(HTML_1@.subrange(HTML_1@.len() - "\">"@.len(), HTML_1@.len() as int) =~= "\">"@);
    assert(m[2] == HTML_2@);
    assert(HTML_2@.subrange(0, "</span>"@.len() as int) =~= "</span>"@);
    assert(HTML_2@.subrange(HTML_2@.len() - "<h1 class=\"title\">"@.len(), HTML_2@.len() as int) =~= "<h1 class=\"title\">"@);
    assert(m[3] == HTML_3@);
    assert(HTML_3@.subrange(0, "</h1>"@.len() as int) =~= "</h1>"@);
    assert(HTML_3@.subrange(HTML_3@.len() - "<p>"@.len(), HTML_3@.len() as int) =~= "<p>"@);
    assert(m[4] == HTML_4@);
    assert(HTML_4@.subrange(0, "</p>"@.len() as int) =~= "</p>"@);
    assert(HTML_4@.subrange(HTML_4@.len() - "<p>"@.len(), HTML_4@.len() as int) =~= "<p>"@);
    assert(m[5] == HTML_5@);
    assert(HTML_5@.subrange(0, "</p>"@.len() as int) =~= "</p>"@);
    assert(HTML_5@.subrange(HTML_5@.len() - "href=\""@.len(), HTML_5@.len() as int) =~= "href=\""@);
    assert(m[6] == HTML_6@);
    assert(HTML_6@.subrange(0, "\" target=\"_blank\""@.len() as int) =~= "\" target=\"_blank\""@);
    assert(HTML_6@.subrange(HTML_6@.len() - ">"@.len(), HTML_6@.len() as int) =~= ">"@);
    assert(m[7] == HTML_7@);
    assert(HTML_7@.subrange(0, "</a>"@.len() as int) =~= "</a>"@);
    assert(HTML_7@.subrange(HTML_7@.len() - "<code style=\"overflow-wrap:anywhere;\">\n                  "@.len(), HTML_7@.len() as int) =~= "<code style=\"overflow-wrap:anywhere;\">\n                  "@);
    assert(m[8] == HTML_8@);
    assert(HTML_8@.subrange(0, "\n              </code>"@.len() as int) =~= "\n              </code>"@);
    assert(HTML_8@.subrange(HTML_8@.len() - "<p>"@.len(), HTML_8@.len() as int) =~= "<p>"@);
    assert(m[9] == HTML_9@);
    assert(HTML_9@.subrange(0, "</p>"@.len() as int) =~= "</p>"@);
    assert(HTML_9@.subrange(HTML_9@.len() - "<p>"@.len(), HTML_9@.len() as int) =~= "<p>"@);
    assert(m[10] == HTML_10@);
    assert(HTML_10@.subrange(0, "</p>"@.len() as int) =~= "</p>"@);
    assert(HTML_10@.subrange(HTML_10@.len() - "<p>"@.len(), HTML_10@.len() as int) =~= "<p>"@);
    assert(m[11] == HTML_11@);
    assert(HTML_11@.subrange(0, "</p>"@.len() as int) =~= "</p>"@);
    assert(HTML_11@.subrange(HTML_11@.len() - "<a href=\""@.len(), HTML_11@.len() as int) =~= "<a href=\""@);
    assert(m[12] == HTML_12@);
    assert(HTML_12@.subrange(0, "\">Manage email settings</a>"@.len() as int) =~= "\">Manage email settings</a>"@);
    assert(HTML_12@.subrange(HTML_12@.len() - "</html>\n"@.len(), HTML_12@.len() as int) =~= "</html>\n"@);
    assert(slots_in_place(m));
    assert forall|b: &ButtonBody| #[trigger] html_of(b) == filled(m, b) by {}
}

/// The plain text of a body with its parts joined by the separators `m`:
/// the greeting, the text before the button, the button's label and link,
/// the label and the text to copy, the text after it, the closing, the
/// signature and the settings link, in that order.
pub open spec fn joined(m: Seq<Seq<char>>, b: &ButtonBody) -> Seq<char> {
    m[0] + b.greeting@ + m[1] + b.pre_body@ + m[2] + b.button_text@ + m[3] + b.button_url@ + m[4] + b.clipboard_text@ + m[5] + b.clipboard_target@ + m[6] + b.post_body@ + m[7] + b.closing@ + m[8] + b.signature@ + m[9] + b.settings_url@ + m[10]
}

/// The plain-text body puts each part on a line of its own, the button's
/// label before its link and the copy label before the text to copy, each
/// pair joined by `: `, and ends with the footer that names Bencher and
/// gives the settings link in brackets.
pub proof fn lemma_text_lines(b: &ButtonBody)
    ensures
        text_of(b) == joined(seq!["\n"@, "\n"@, "\n"@, ": "@, "\n"@, ": "@, "\n"@, "\n"@, "\n"@, "\nBencher - Continuous Benchmarking\nManage email settings ("@, ")"@], b),
{
    reveal_strlit("\n");
    reveal_strlit("\nBencher - Continuous Benchmarking\nManage email settings (");
    reveal_strlit(")");
    reveal_strlit(": ");
}

} // verus!
