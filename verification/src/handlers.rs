//! The demonstration handlers' pure logic: each function builds a response
//! from plain values.  Reading a page file from disk happens outside the
//! crate; the handler logic here only chooses the file path and turns the
//! read's outcome into a response.

use vstd::prelude::*;
use crate::request::Request;
use crate::response::Response;

verus! {

/// Answers who the server is.
pub fn who_handler(_req: &Request) -> (r: Response)
    ensures
        r@.status == 200,
        r@.content == "Hi, I'm Aryan!"@,
        r@.headers == Seq::<(Seq<char>, Seq<char>)>::empty(),
{
    let mut response = Response::success();
    response.set_content("Hi, I'm Aryan!".to_owned());
    response
}

/// Answers a greeting in JSON.
pub fn say_hi_handler(_req: &Request) -> (r: Response)
    ensures
        r@.status == 200,
        r@.content == "{ \"message\": \"Hi, So, this is supposed to be a post method!\"}"@,
        r@.headers == seq![("Content-Type"@, "application/json"@)],
{
    let mut response = Response::success();
    response.set_header("Content-Type".to_owned(), "application/json".to_owned());
    response.set_content(
        "{ \"message\": \"Hi, So, this is supposed to be a post method!\"}".to_owned(),
    );
    proof {
        assert(response@.headers =~= seq![("Content-Type"@, "application/json"@)]);
    }
    response
}

/// The file served for a page name: `public/<page>.html`.
pub fn page_file_path(page: &str) -> (r: String)
    ensures
        r@ == "public/"@ + page@ + ".html"@,
{
    let mut path = String::new();
    path.append("public/");
    path.append(page);
    path.append(".html");
    path
}

/// The response when the page query parameter is missing.
pub fn page_missing_param_response() -> (r: Response)
    ensures
        r@.status == 404,
        r@.content == "Please specify a page using ?view=value"@,
        r@.headers == seq![("Content-Type"@, "text/plain"@)],
{
    let mut response = Response::default_response();
    response.set_content("Please specify a page using ?view=value".to_owned());
    response
}

/// The response for the outcome of reading a page file: the file's text as
/// HTML when the read succeeded, the fixed 404 response when it failed.
pub fn page_response(file_content: Option<String>) -> (r: Response)
    ensures
        match file_content {
            Some(content) => r@.status == 200 && r@.content == content@ && r@.headers == seq![
                ("Content-Type"@, "text/html"@),
            ],
            None => r@.status == 404 && r@.content == "404 - Not Found"@ && r@.headers == seq![
                ("Content-Type"@, "text/plain"@),
            ],
        },
{
    match file_content {
        Some(content) => {
            let mut response = Response::success();
            response.set_header("Content-Type".to_owned(), "text/html".to_owned());
            response.set_content(content);
            proof {
                assert(response@.headers =~= seq![("Content-Type"@, "text/html"@)]);
            }
            response
        },
        None => Response::default_response(),
    }
}

} // verus!
