//! Fixed texts and defaults.

use vstd::prelude::*;

verus! {

/// The address that is bound where none is configured.
pub const HOST: &'static str = "0.0.0.0";

/// The port that is served where none is configured.
pub const PORT: u16 = 8080;

/// The status of every response, whatever its outcome.
pub const STATUS: u16 = 200;

/// The content type of listings and messages.
pub const HTML: &'static str = "text/html";

/// The body sent in place of a file that exceeds the size limit.
pub const TOO_LARGE: &'static str =
    "I'm afraid, I'm too lazy to serve the requested file. It's pretty big...";

/// The body sent where a request is refused.
pub const FORBIDDEN: &'static str = "I don't think you're allowed to do this.";

/// The key under which a template finds the title of a listing.
pub const KEY_TITLE: &'static str = "title";

/// The key under which a template finds the rows of a listing.
pub const KEY_CONTENT: &'static str = "content";

/// The key under which each row holds its link.
pub const KEY_URL: &'static str = "url";

/// The key under which each row holds its size for display.
pub const KEY_SIZE: &'static str = "size";

/// The key under which each row holds its name.
pub const KEY_NAME: &'static str = "name";

/// The template that listings are rendered with where none is configured.
pub const TEMPLATE: &'static str =
"<!DOCTYPE html>
<html>
    <title>{{title}}</title>
    <style type=\"text/css\">
* {
	padding:0;
	margin:0;
}

body {
	color: #333;
	font: 14px Sans-Serif;
	padding: 50px;
	background: #eee;
}

h1 {
	text-align: center;
	padding: 20px 0 12px 0;
	margin: 0;
}
h2 {
	font-size: 16px;
	text-align: center;
	padding: 0 0 12px 0;
}

#container {
	box-shadow: 0 5px 10px -5px rgba(0,0,0,0.5);
	position: relative;
	background: white;
}

table {
	background-color: #F3F3F3;
	border-collapse: collapse;
	width: 100%;
	margin: 15px 0;
}

th {
	background-color: #215fa4;
	color: #FFF;
	cursor: pointer;
	padding: 5px 10px;
}

th small {
	font-size: 9px;
}

td, th {
	text-align: left;
}

a {
	text-decoration: none;
}

td a {
	color: #001c3b;
	display: block;
	padding: 5px 10px;
}
th a {
	padding-left: 0
}

tr:nth-of-type(odd) {
	background-color: #E6E6E6;
}

tr:hover td {
	background-color:#CACACA;
}

tr:hover td a {
	color: #000;
}
    </style>
    <body>
        <div id=\"container\">
            <h1>{{title}}</h1>
            <table>
                <thead>
                    <tr>
                        <th>Name</th>
                        <th>Size</th>
                    </tr>
                </thead>
                <tbody>
                {{#content}}
                    <tr>
                        <td>
                            <a href=\"/{{url}}\">{{name}}</a>
                        </td>
                        <td>
                            {{size}}
                        </td>
                    </tr>
                {{/content}}
                </tbody>
            </table>
        </div>
    </body>
</html>";

} // verus!
