//! The documents that the development server makes itself: the script that
//! connects a page to the reload channel, and the page served when nothing
//! else answers a request.

use vstd::prelude::*;
use vstd::string::StringExecFns;
use crate::text::{
    decimal, decimal_string, first_occurrence, lemma_decimal_is_digits, lemma_no_pattern_left,
    lemma_replace_all_by_occurrence, no_common_char, occurs, replace_all, replace_text,
};

verus! {

/// Stands in the raw documents where the websocket port belongs.
pub const PORT_PLACEHOLDER: &'static str = "{{PORT}}";

/// The script appended to every page in development, before the port is
/// filled in. It opens the reload channel and reloads the page when the
/// server says so, or when the server turns out to have been restarted.
pub const DEV_SCRIPT_RAW: &'static str =
    "<script>\n  (function () {\n    var started = null;\n    function listen() {\n      var socket = new WebSocket(\"ws://localhost:{{PORT}}\");\n      socket.onmessage = function (event) {\n        if (event.data === \"reload\") {\n          window.location.reload();\n        } else if (started !== null && started !== event.data) {\n          window.location.reload();\n        } else {\n          started = event.data;\n        }\n      };\n      socket.onclose = function () {\n        setTimeout(listen, 1000);\n      };\n    }\n    listen();\n  })();\n</script>\n";

/// The page served with status 404 where the site has no page of its own
/// for that, before the script is appended.
pub const FALLBACK_404_PAGE: &'static str =
    "<!DOCTYPE html>\n<html>\n  <head>\n    <meta charset=\"utf-8\" />\n    <title>404 - Not found</title>\n  </head>\n  <body>\n    <h1>404 - File not found</h1>\n    <p>No custom 404 page was found either.</p>\n  </body>\n</html>\n";

/// Stands between a page and the script appended to it.
pub const SCRIPT_SEPARATOR: &'static str = "\n\n";

/// The script with the websocket port filled in.
pub open spec fn dev_script_text(port_ws: u16) -> Seq<char> {
    replace_all(DEV_SCRIPT_RAW@, PORT_PLACEHOLDER@, decimal(port_ws as nat))
}

/// The fallback page, followed by the script, with the websocket port
/// filled in.
pub open spec fn fallback_404_text(port_ws: u16) -> Seq<char> {
    replace_all(fallback_404_raw(), PORT_PLACEHOLDER@, decimal(port_ws as nat))
}

/// A page as it is served in development: the page, then the script.
pub open spec fn with_dev_script_text(page: Seq<char>, port_ws: u16) -> Seq<char> {
    page + SCRIPT_SEPARATOR@ + dev_script_text(port_ws)
}

/// The raw text of the fallback page: the page, then the script.
pub open spec fn fallback_404_raw() -> Seq<char> {
    FALLBACK_404_PAGE@ + SCRIPT_SEPARATOR@ + DEV_SCRIPT_RAW@
}

/// A port in decimal is not empty and shares no character with the
/// placeholder.
proof fn lemma_port_is_no_placeholder(port_ws: u16)
    ensures
        PORT_PLACEHOLDER@.len() == 8,
        decimal(port_ws as nat).len() >= 1,
        no_common_char(decimal(port_ws as nat), PORT_PLACEHOLDER@),
{
    reveal_strlit("{{PORT}}");
    lemma_decimal_is_digits(port_ws as nat);
    let digits = decimal(port_ws as nat);
    let placeholder = PORT_PLACEHOLDER@;
    assert forall|i: int, j: int|
        0 <= i < digits.len() && 0 <= j < placeholder.len() implies digits[i]
        != placeholder[j] by {
        assert('0' <= digits[i] && digits[i] <= '9');
        assert(placeholder[j] == '{' || placeholder[j] == 'P' || placeholder[j] == 'O'
            || placeholder[j] == 'R' || placeholder[j] == 'T' || placeholder[j] == '}');
    }
}

/// Once the port is filled in, no placeholder is left: neither in the
/// script nor in the fallback page.
pub proof fn lemma_no_placeholder_left(port_ws: u16)
    ensures
        !occurs(dev_script_text(port_ws), PORT_PLACEHOLDER@),
        !occurs(fallback_404_text(port_ws), PORT_PLACEHOLDER@),
{
    lemma_port_is_no_placeholder(port_ws);
    lemma_no_pattern_left(DEV_SCRIPT_RAW@, PORT_PLACEHOLDER@, decimal(port_ws as nat));
    lemma_no_pattern_left(fallback_404_raw(), PORT_PLACEHOLDER@, decimal(port_ws as nat));
}

/// The fallback page differs from its raw text at the placeholders only:
/// what stands before the first placeholder is kept, the placeholder gives
/// way to the port in decimal, and the rest of the text is treated in the
/// same way. A raw text without a placeholder is the page as it is.
pub proof fn lemma_fallback_differs_at_placeholders_only(port_ws: u16)
    ensures
        fallback_404_text(port_ws) == (if first_occurrence(fallback_404_raw(), PORT_PLACEHOLDER@)
            < fallback_404_raw().len() {
            fallback_404_raw().take(first_occurrence(fallback_404_raw(), PORT_PLACEHOLDER@))
                + decimal(port_ws as nat) + replace_all(
                fallback_404_raw().skip(
                    first_occurrence(fallback_404_raw(), PORT_PLACEHOLDER@) + 8,
                ),
                PORT_PLACEHOLDER@,
                decimal(port_ws as nat),
            )
        } else {
            fallback_404_raw()
        }),
{
    lemma_port_is_no_placeholder(port_ws);
    lemma_replace_all_by_occurrence(
        fallback_404_raw(),
        PORT_PLACEHOLDER@,
        decimal(port_ws as nat),
    );
}

/// The development script, with the websocket port included.
pub fn dev_script(port_ws: u16) -> (script: String)
    ensures
        script@ == dev_script_text(port_ws),
{
    let port = decimal_string(port_ws as u64);
    replace_text(DEV_SCRIPT_RAW, PORT_PLACEHOLDER, port.as_str())
}

/// The fallback 404 page, with the websocket port included.
pub fn fallback_404(port_ws: u16) -> (page: String)
    ensures
        page@ == fallback_404_text(port_ws),
{
    let mut raw = String::from_str(FALLBACK_404_PAGE);
    raw.append(SCRIPT_SEPARATOR);
    raw.append(DEV_SCRIPT_RAW);
    let port = decimal_string(port_ws as u64);
    replace_text(raw.as_str(), PORT_PLACEHOLDER, port.as_str())
}

/// Appends the development script to a rendered page.
pub fn with_dev_script(page: String, port_ws: u16) -> (served: String)
    ensures
        served@ == with_dev_script_text(page@, port_ws),
{
    let mut served = page;
    served.append(SCRIPT_SEPARATOR);
    let script = dev_script(port_ws);
    served.append(script.as_str());
    served
}

} // verus!
