//! Scripts from source text to the store: the text is split into host
//! tokens, assembled, checked, bound and sent to a store that runs in this
//! process.

use redis_lua::builder::{Builder, Unit};
use redis_lua::check::{Checker, Diagnostic};
use redis_lua::script::Script;
use redis_lua::token::{Delimiter, Pos, Span, SpanInfo, TokenTree};
use redis_lua::types::{script_arg, ScriptArg, Value};

fn info(span: proc_macro2::Span, id: &mut usize) -> SpanInfo {
    *id += 1;
    SpanInfo {
        span: Span { id: *id },
        start: Pos::new(span.start().line, span.start().column),
        end: Pos::new(span.end().line, span.end().column),
        debug: format!("{:?}", span),
    }
}

fn convert(stream: proc_macro2::TokenStream, id: &mut usize) -> Vec<TokenTree> {
    let mut out = Vec::new();
    for tt in stream {
        out.push(match tt {
            proc_macro2::TokenTree::Group(g) => TokenTree::Group {
                delimiter: match g.delimiter() {
                    proc_macro2::Delimiter::Parenthesis => Delimiter::Parenthesis,
                    proc_macro2::Delimiter::Brace => Delimiter::Brace,
                    proc_macro2::Delimiter::Bracket => Delimiter::Bracket,
                    proc_macro2::Delimiter::None => Delimiter::Invisible,
                },
                info: info(g.span(), id),
                stream: convert(g.stream(), id),
            },
            other => TokenTree::Leaf { text: other.to_string(), info: info(other.span(), id) },
        });
    }
    out
}

fn trees(text: &str) -> Vec<TokenTree> {
    let stream: proc_macro2::TokenStream = text.parse().unwrap();
    convert(stream, &mut 0)
}

/// Assembles and checks `text`, and expects the check to find nothing.
fn lua(text: &str, caps: Vec<ScriptArg>) -> Builder {
    let script = Script::try_new(trees(text), true).unwrap();
    let mut names = Vec::new();
    for arg in script.args() {
        names.push(arg.as_lua().to_string());
    }
    let found: Vec<Diagnostic> = Checker::new().defines(names).check(&script).unwrap();
    assert!(found.is_empty(), "{:?}", found);
    Builder::new(&script, caps).unwrap()
}

fn num(v: i64) -> ScriptArg {
    script_arg(&Value::Int(v))
}

/// A store in this process. It takes `EVAL` commands as the client packs
/// them, binds the arguments as the script says, and answers: a script that
/// returns a sum of numbers and arguments with that sum, a script that
/// calls `set` with `OK`, any other with the answer prepared for it.
struct Store {
    address: String,
    prepared: Vec<(String, redis::Value)>,
    scripts: Vec<String>,
    arguments: Vec<Vec<Vec<u8>>>,
}

impl Store {
    fn open(address: &str) -> Store {
        Store {
            address: address.to_string(),
            prepared: Vec::new(),
            scripts: Vec::new(),
            arguments: Vec::new(),
        }
    }

    fn prepare(mut self, body: &str, answer: redis::Value) -> Store {
        self.prepared.push((body.to_string(), answer));
        self
    }

    fn run(&self, script: &str, argv: &[Vec<u8>]) -> redis::Value {
        let mut answer = redis::Value::Nil;
        for piece in script.split_terminator(" end)();\n") {
            let piece = piece.strip_prefix("return ").unwrap_or(piece);
            let inner = piece.strip_prefix("(function() ").unwrap();
            let mut bound: Vec<(String, Vec<u8>)> = Vec::new();
            let mut rest = inner;
            while let Some(after) = rest.strip_prefix("local __internal_from_args_") {
                let (number, after) = after.split_once(" = ").unwrap();
                let after = after.strip_prefix("cmsgpack.unpack(").unwrap_or(after);
                let (slot, after) = after.strip_prefix("ARGV[").unwrap().split_once(']').unwrap();
                let after = after.strip_prefix(')').unwrap_or(after);
                let slot: usize = slot.parse().unwrap();
                bound.push((format!("__internal_from_args_{}", number), argv[slot - 1].clone()));
                rest = after.strip_prefix(' ').unwrap();
            }
            answer = self.eval(rest, &bound);
        }
        answer
    }

    fn eval(&self, body: &str, bound: &[(String, Vec<u8>)]) -> redis::Value {
        for (text, answer) in &self.prepared {
            if body == text {
                return answer.clone();
            }
        }
        if body.starts_with("return redis.call(\"set\"") {
            return redis::Value::Okay;
        }
        let sum = body.strip_prefix("return ").unwrap().trim_end_matches(';');
        let mut total: i64 = 0;
        for term in sum.split('+') {
            let term = term.trim();
            let known = bound.iter().find(|(name, _)| name == term);
            let digits = match known {
                Some((_, bytes)) => String::from_utf8(bytes.clone()).unwrap(),
                None => term.to_string(),
            };
            total += digits.parse::<i64>().unwrap();
        }
        redis::Value::Int(total)
    }
}

fn unpack(cmd: &[u8]) -> Vec<Vec<u8>> {
    let mut parts = Vec::new();
    let mut at = cmd.iter().position(|b| *b == b'\n').unwrap() + 1;
    while at < cmd.len() {
        let end = at + cmd[at..].iter().position(|b| *b == b'\r').unwrap();
        let len: usize = String::from_utf8(cmd[at + 1..end].to_vec()).unwrap().parse().unwrap();
        parts.push(cmd[end + 2..end + 2 + len].to_vec());
        at = end + 2 + len + 2;
    }
    parts
}

impl redis::ConnectionLike for Store {
    fn req_packed_command(&mut self, cmd: &[u8]) -> redis::RedisResult<redis::Value> {
        let parts = unpack(cmd);
        assert_eq!(parts[0], b"EVAL");
        assert_eq!(parts[2], b"0");
        let script = String::from_utf8(parts[1].clone()).unwrap();
        let argv = parts[3..].to_vec();
        let answer = self.run(&script, &argv);
        self.scripts.push(script);
        self.arguments.push(argv);
        Ok(answer)
    }

    fn req_packed_commands(
        &mut self,
        _cmd: &[u8],
        _offset: usize,
        _count: usize,
    ) -> redis::RedisResult<Vec<redis::Value>> {
        Ok(Vec::new())
    }

    fn get_db(&self) -> i64 {
        0
    }

    fn check_connection(&mut self) -> bool {
        !self.address.is_empty()
    }

    fn is_open(&self) -> bool {
        true
    }
}

fn send<T: redis::FromRedisValue>(unit: &Unit, store: &mut Store) -> T {
    let mut cmd = redis::cmd("EVAL");
    cmd.arg(unit.script()).arg(0);
    for arg in unit.args() {
        cmd.arg(arg.bytes());
    }
    cmd.query(store).unwrap()
}

fn invoke<T: redis::FromRedisValue>(builder: Builder, store: &mut Store) -> T {
    send(&builder.finish().unwrap(), store)
}

/// Runs a script without placeholders against a store that answers it
/// with `answer`.
fn run<T: redis::FromRedisValue>(text: &str, answer: redis::Value) -> T {
    let builder = lua(text, Vec::new());
    let unit = builder.finish().unwrap();
    let body = unit.fragments()[0].info().body().to_string();
    let mut store = Store::open("redis://127.0.0.1").prepare(&body, answer);
    send(&unit, &mut store)
}

#[test]
fn json() {
    let encoded: String = run(
        "return cjson.encode({[\"foo\"]= \"bar\"})",
        redis::Value::BulkString(b"{\"foo\":\"bar\"}".to_vec()),
    );
    assert_eq!(encoded, "{\"foo\":\"bar\"}");
    let decoded: bool = run(
        "local p = cjson.decode(\"{\\\"foo\\\":\\\"bar\\\"}\");
        return p.foo == \"bar\"",
        redis::Value::Int(1),
    );
    assert_eq!(decoded, true);
}

#[test]
fn msgpack() {
    let packed: Vec<u8> = run(
        "return cmsgpack.pack({\"foo\", \"bar\", \"baz\"})",
        redis::Value::BulkString(b"\x93\xa3foo\xa3bar\xa3baz".to_vec()),
    );
    assert_eq!(packed, b"\x93\xa3foo\xa3bar\xa3baz");

    let bytes = b"\x93\xa3foo\xa3bar\xa3baz";
    let builder = lua(
        "return cmsgpack.unpack(@bytes);",
        vec![script_arg(&Value::Bytes(bytes.to_vec()))],
    );
    let unit = builder.finish().unwrap();
    assert_eq!(unit.fragments()[0].info().body(), "return cmsgpack.unpack( __internal_from_args_0);");
    let mut store = Store::open("redis://127.0.0.1").prepare(
        "return cmsgpack.unpack( __internal_from_args_0);",
        redis::Value::Array(vec![
            redis::Value::BulkString(b"foo".to_vec()),
            redis::Value::BulkString(b"bar".to_vec()),
            redis::Value::BulkString(b"baz".to_vec()),
        ]),
    );
    let unpacked: Vec<String> = send(&unit, &mut store);
    assert_eq!(unpacked, vec!["foo".to_owned(), "bar".into(), "baz".into()]);
    assert_eq!(store.arguments, vec![vec![bytes.to_vec()]]);
}

#[test]
fn sha1hex() {
    let hex: String = run(
        "return redis.sha1hex(\"foo\");",
        redis::Value::BulkString(b"0beec7b5ea3f0fdbc95d0dd47f3c5bc275da8a33".to_vec()),
    );
    assert_eq!(hex, "0beec7b5ea3f0fdbc95d0dd47f3c5bc275da8a33");
}

#[test]
fn log() {
    let done: usize = run(
        "redis.log(redis.LOG_DEBUG, \"debug\");
        redis.log(redis.LOG_VERBOSE, \"verbose\");
        redis.log(redis.LOG_NOTICE, \"notice\");
        redis.log(redis.LOG_WARNING, \"warning\");
        return 0;",
        redis::Value::Int(0),
    );
    assert_eq!(done, 0usize);
}

#[test]
fn addvar() {
    let script1 = lua("return redis.call(\"set\", \"a\", $x);", Vec::new());
    let script2 = lua("return redis.call(\"set\", \"b\", $y);", Vec::new());
    let script = script1.add(script2);

    let mut cli = Store::open("redis://127.0.0.1");
    let bound = script.set("x", num(20)).unwrap().set("y", num(2)).unwrap();
    let res: String = invoke(bound, &mut cli);
    assert_eq!(res, "OK");
    assert_eq!(cli.arguments, vec![vec![b"20".to_vec(), b"2".to_vec()]]);
}

#[test]
fn addvar_novars() {
    let script1 = lua("return 10;", Vec::new());
    let script2 = lua("return 10;", Vec::new());
    let script = script1.add(script2);

    let mut cli = Store::open("redis://127.0.0.1");
    let res: usize = invoke(script, &mut cli);
    assert_eq!(res, 10);
    assert_eq!(
        cli.scripts,
        vec!["(function() return 10; end)();\nreturn (function() return 10; end)();\n".to_string()]
    );
}

#[test]
fn addvar3() {
    let script1 = lua("return $x + 10;", Vec::new());
    let script2 = lua("return $y + 10;", Vec::new());
    let script3 = lua("return $z + 10;", Vec::new());
    let script = script1.add(script2).add(script3);

    let mut cli = Store::open("redis://127.0.0.1");
    let bound = script
        .set("x", num(20))
        .unwrap()
        .set("y", num(4))
        .unwrap()
        .set("z", num(2))
        .unwrap();
    let res: usize = invoke(bound, &mut cli);
    assert_eq!(res, 12);
    assert_eq!(cli.arguments, vec![vec![b"20".to_vec(), b"4".to_vec(), b"2".to_vec()]]);
}

#[test]
fn morevars() {
    let script = lua("return $a + $b + 10 + $c + 10 + $d;", Vec::new());

    let mut cli = Store::open("redis://127.0.0.1");
    let bound = script
        .set("a", num(20))
        .unwrap()
        .set("b", num(11))
        .unwrap()
        .set("c", num(1))
        .unwrap()
        .set("d", num(3))
        .unwrap();
    let res: usize = invoke(bound, &mut cli);
    assert_eq!(res, 55);
}

#[test]
fn onevar() {
    let script = lua("return $a + 10;", Vec::new());

    let mut cli = Store::open("redis://127.0.0.1");
    let res: usize = invoke(script.set("a", num(20)).unwrap(), &mut cli);
    assert_eq!(res, 30);
}

#[test]
fn captured_value_is_sent_and_added() {
    let x = 5;
    let script = lua("return @x + 10", vec![num(x)]);
    let mut store = Store::open("redis://127.0.0.1");
    let res: i64 = invoke(script, &mut store);
    assert_eq!(res, 15);
    assert_eq!(store.arguments, vec![vec![b"5".to_vec()]]);
    assert_eq!(
        store.scripts,
        vec![
            "return (function() local __internal_from_args_0 = ARGV[1] return  __internal_from_args_0 + 10 end)();\n"
                .to_string()
        ]
    );
}

#[test]
fn late_values_are_sent_in_order() {
    let script = lua("return $a + $b", Vec::new());
    let mut store = Store::open("redis://127.0.0.1");
    let bound = script.set("a", num(3)).unwrap().set("b", num(4)).unwrap();
    let res: i64 = invoke(bound, &mut store);
    assert_eq!(res, 7);
    assert_eq!(store.arguments, vec![vec![b"3".to_vec(), b"4".to_vec()]]);
}

#[test]
fn combined_fragments_run_left_to_right() {
    let left = lua("return $x + 10", Vec::new());
    let right = lua("return $y + 10", Vec::new());
    let both = left.add(right);
    assert!(!both.is_complete());
    let both = both.set("x", num(1)).unwrap();
    assert!(!both.is_complete());
    let both = both.set("y", num(2)).unwrap();
    assert!(both.is_complete());
    let unit = both.finish().unwrap();
    assert_eq!(unit.fragments().len(), 2);
    assert_eq!(unit.fragments()[0].info().body(), "return  __internal_from_args_0 + 10");
    assert_eq!(unit.fragments()[0].values()[0].bytes(), b"1");
    assert_eq!(unit.fragments()[1].values()[0].bytes(), b"2");
    let mut store = Store::open("redis://127.0.0.1");
    let res: i64 = send(&unit, &mut store);
    assert_eq!(res, 12);
    assert_eq!(store.arguments, vec![vec![b"1".to_vec(), b"2".to_vec()]]);
    assert_eq!(
        store.scripts[0],
        "(function() local __internal_from_args_0 = ARGV[1] return  __internal_from_args_0 + 10 end)();\n\
         return (function() local __internal_from_args_0 = ARGV[2] return  __internal_from_args_0 + 10 end)();\n"
    );
}

#[test]
fn mixed_placeholders_keep_the_order_of_the_script() {
    let y = 3;
    let script = lua("return $x + @y + 10;", vec![num(y)]);
    let mut store = Store::open("redis://127.0.0.1");
    let res: usize = invoke(script.set("x", num(4)).unwrap(), &mut store);
    assert_eq!(res, 17);
    assert_eq!(store.arguments, vec![vec![b"4".to_vec(), b"3".to_vec()]]);
}

#[test]
fn packed_argument_is_unpacked_by_the_script() {
    let list = Value::List(vec![Value::UInt(1), Value::UInt(2), Value::UInt(3)]);
    let script = lua("return @vec", vec![script_arg(&list)]);
    let unit = script.finish().unwrap();
    assert_eq!(
        unit.script(),
        "return (function() local __internal_from_args_0 = cmsgpack.unpack(ARGV[1]) return  __internal_from_args_0 end)();\n"
    );
    assert_eq!(unit.args()[0].bytes(), b"\x93\x01\x02\x03");
    assert!(unit.args()[0].pack());
}
