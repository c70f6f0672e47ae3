use vstd::prelude::*;

verus! {

/// The ASCII decimal digits of `n`, most significant first, with no leading zero.
pub open spec fn decimal(n: nat) -> Seq<u8>
    decreases n,
{
    if n < 10 {
        seq![(n + 48) as u8]
    } else {
        decimal(n / 10).push(((n % 10) + 48) as u8)
    }
}

/// Writes `n` in decimal as ASCII digits.
pub fn decimal_digits(n: usize) -> (r: Vec<u8>)
    ensures
        r@ == decimal(n as nat),
    decreases n,
{
    if n < 10 {
        let mut r: Vec<u8> = Vec::new();
        r.push((n as u8) + 48);
        r
    } else {
        let mut r = decimal_digits(n / 10);
        r.push(((n % 10) as u8) + 48);
        r
    }
}

/// The one request line the server answers with its page: `GET / HTTP/1.1` and CRLF.
pub open spec fn root_request() -> Seq<u8> {
    seq![71u8, 69, 84, 32, 47, 32, 72, 84, 84, 80, 47, 49, 46, 49, 13, 10]
}

/// Which of the two responses a request gets.
#[derive(PartialEq, Eq, Structural, Clone, Copy, Debug)]
pub enum Route {
    /// The request asked for the root page.
    Found,
    /// Anything else.
    NotFound,
}

/// The route a request with these leading bytes gets.
pub open spec fn route_of(request: Seq<u8>) -> Route {
    if request.len() >= root_request().len() && request.take(root_request().len() as int)
        == root_request() {
        Route::Found
    } else {
        Route::NotFound
    }
}

/// Picks the route for the bytes read from a connection: the page when they start
/// with the root request line, the not-found page otherwise.
pub fn route(request: &[u8]) -> (r: Route)
    ensures
        r == route_of(request@),
{
    let line: Vec<u8> = vec![71u8, 69, 84, 32, 47, 32, 72, 84, 84, 80, 47, 49, 46, 49, 13, 10];
    assert(line@ =~= root_request());
    if request.len() < line.len() {
        return Route::NotFound;
    }
    let mut i: usize = 0;
    while i < line.len()
        invariant
            line@ == root_request(),
            i <= line@.len(),
            request@.len() >= line@.len(),
            forall|j: int| 0 <= j < i ==> #[trigger] request@[j] == line@[j],
        decreases line@.len() - i,
    {
        if request[i] != line[i] {
            assert(request@.take(line@.len() as int)[i as int] != root_request()[i as int]);
            return Route::NotFound;
        }
        i = i + 1;
    }
    assert(request@.take(line@.len() as int) =~= root_request());
    Route::Found
}

impl Route {
    /// The status line sent back, without its line break: `HTTP/1.1 200 OK` for the
    /// page, `HTTP/1.1 404 NOT FOUND` otherwise.
    pub open spec fn status_line_spec(self) -> Seq<u8> {
        match self {
            Route::Found => seq![72u8, 84, 84, 80, 47, 49, 46, 49, 32, 50, 48, 48, 32, 79, 75],
            Route::NotFound => seq![72u8, 84, 84, 80, 47, 49, 46, 49, 32, 52, 48, 52, 32, 78, 79, 84, 32, 70, 79, 85, 78, 68],
        }
    }

    /// The status line sent back, without its line break.
    pub fn status_line(&self) -> (r: Vec<u8>)
        ensures
            r@ == self.status_line_spec(),
    {
        let r = match self {
            Route::Found => vec![72u8, 84, 84, 80, 47, 49, 46, 49, 32, 50, 48, 48, 32, 79, 75],
            Route::NotFound => vec![72u8, 84, 84, 80, 47, 49, 46, 49, 32, 52, 48, 52, 32, 78, 79, 84, 32, 70, 79, 85, 78, 68],
        };
        assert(r@ =~= self.status_line_spec());
        r
    }

    /// The name of the file whose contents form the body.
    pub fn filename(&self) -> (r: &'static str)
        ensures
            *self == Route::Found ==> r@ == "hello.html"@,
            *self == Route::NotFound ==> r@ == "404.html"@,
    {
        match self {
            Route::Found => "hello.html",
            Route::NotFound => "404.html",
        }
    }
}

/// The text between the status line and the length: CRLF, then `Content-Length: `.
pub open spec fn length_header() -> Seq<u8> {
    seq![13u8, 10, 67, 111, 110, 116, 101, 110, 116, 45, 76, 101, 110, 103, 116, 104, 58, 32]
}

/// The line breaks that end the headers: CRLF twice.
pub open spec fn header_end() -> Seq<u8> {
    seq![13u8, 10, 13, 10]
}

/// The full response: status line, a `Content-Length` header giving the body's
/// length in bytes, a blank line, then the body.
pub open spec fn response_of(status: Seq<u8>, body: Seq<u8>) -> Seq<u8> {
    status + length_header() + decimal(body.len()) + header_end() + body
}

fn append(out: &mut Vec<u8>, bytes: &[u8])
    ensures
        final(out)@ == old(out)@ + bytes@,
{
    let mut i: usize = 0;
    while i < bytes.len()
        invariant
            i <= bytes@.len(),
            out@ == old(out)@ + bytes@.take(i as int),
        decreases bytes@.len() - i,
    {
        assert(bytes@.take(i + 1) =~= bytes@.take(i as int).push(bytes@[i as int]));
        out.push(bytes[i]);
        i = i + 1;
    }
    assert(bytes@.take(i as int) =~= bytes@);
}

/// Frames `body` as a response with the given status line.
pub fn build_response(status: &[u8], body: &[u8]) -> (r: Vec<u8>)
    ensures
        r@ == response_of(status@, body@),
{
    let mut r: Vec<u8> = Vec::new();
    append(&mut r, status);
    let header: Vec<u8> = vec![13u8, 10, 67, 111, 110, 116, 101, 110, 116, 45, 76, 101, 110, 103, 116, 104, 58, 32];
    append(&mut r, header.as_slice());
    let digits = decimal_digits(body.len());
    append(&mut r, digits.as_slice());
    let end: Vec<u8> = vec![13u8, 10, 13, 10];
    append(&mut r, end.as_slice());
    append(&mut r, body);
    assert(header@ =~= length_header());
    assert(end@ =~= header_end());
    assert(r@ =~= response_of(status@, body@));
    r
}

/// The response to a request, given the body that its route names.
pub fn respond(request: &[u8], body: &[u8]) -> (r: Vec<u8>)
    ensures
        r@ == response_of(route_of(request@).status_line_spec(), body@),
{
    let status = route(request).status_line();
    build_response(status.as_slice(), body)
}

} // verus!
