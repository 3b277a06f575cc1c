# qiniu_uploader

Uploads to Qiniu object storage: the
[direct upload](https://developer.qiniu.com/kodo/1312/upload) of a file and the
[upload in parts](https://developer.qiniu.com/kodo/6364/multipartupload-interface).

`src/` is a library verified with Verus. It decides what is sent, in which order,
and what an answer leads to:

- `region`: the regions, their names and their upload hosts
- `text`: decimal numbers, placeholder replacement, file names
- `encoding`: URL-safe Base64, HMAC-SHA1 and the clock
- `policy`, `uploader`: the upload policy, the token that signs it, addresses
- `headers`, `request`: the headers and requests of an upload in parts
- `direct`: the form of a direct upload
- `plan`: how a file is cut into parts
- `multipart`, `course`: an upload in parts as a machine of events and actions
- `run`: what holds of an upload in parts from its start to its end
- `error`: the ways in which an upload fails

`app/` sends the requests over HTTP, reads the file and shows progress bars.

What calls another crate is marked `external_body` and says in its doc comment
what it takes for granted.
