use spechurl::generate_from_str;

/// A one-operation document whose `page` query parameter has the given schema
/// (indented for the parameter's `schema:` key), rendered as text.
fn query_file(schema: &str) -> String {
    let source = format!(
        "openapi: 3.0.3\ninfo:\n  title: T\n  version: \"1\"\npaths:\n  /q:\n    get:\n      parameters:\n        - name: page\n          in: query\n          required: true\n          schema:\n{schema}      responses:\n        \"200\":\n          description: ok\n"
    );
    let suite = generate_from_str("q.yaml", &source)
        .unwrap_or_else(|err| panic!("{}", err.to_message()));
    suite.file("get_q.hurl").unwrap().clone()
}

/// A one-operation document whose JSON request body has the given schema
/// (indented for the media type's `schema:` key), rendered as text.
fn body_file(schema: &str, components: &str) -> String {
    let source = format!(
        "openapi: 3.0.3\ninfo:\n  title: T\n  version: \"1\"\npaths:\n  /b:\n    post:\n      requestBody:\n        required: true\n        content:\n          application/json:\n            schema:\n{schema}      responses:\n        \"201\":\n          description: ok\n{components}"
    );
    let suite = generate_from_str("b.yaml", &source)
        .unwrap_or_else(|err| panic!("{}", err.to_message()));
    suite.file("post_b.hurl").unwrap().clone()
}

#[test]
fn integer_samples_round_minimums() {
    assert!(query_file("            type: integer\n            exclusiveMinimum: 1.5\n").contains("page: 2\n"));
    assert!(query_file("            type: integer\n            minimum: 1.2\n").contains("page: 2\n"));
    assert!(query_file("            type: integer\n            minimum: 3\n            exclusiveMinimum: true\n").contains("page: 4\n"));
    assert!(query_file("            type: integer\n            minimum: 7\n            maximum: 4.9\n").contains("page: 4\n"));
    assert!(query_file("            type: integer\n            minimum: -5\n").contains("page: -5\n"));
    assert!(query_file("            type: integer\n").contains("page: 0\n"));
}

#[test]
fn number_samples_are_floats() {
    assert!(query_file("            type: number\n").contains("page: 0.0\n"));
    assert!(query_file("            type: number\n            minimum: 1.5\n").contains("page: 1.5\n"));
    assert!(query_file("            type: number\n            exclusiveMinimum: 2\n").contains("page: 3.0\n"));
    assert!(query_file("            type: number\n            minimum: 10\n            maximum: 5\n").contains("page: 5.0\n"));
    assert!(query_file("            maximum: 8\n").contains("page: 0.0\n"));
}

#[test]
fn string_samples_follow_format_and_length() {
    assert!(query_file("            type: string\n            format: date-time\n").contains("page: 2020-01-01T00:00:00Z\n"));
    assert!(query_file("            type: string\n            format: email\n").contains("page: user@example.com\n"));
    assert!(query_file("            type: string\n            minLength: 8\n").contains("page: aaaaaaaa\n"));
    assert!(query_file("            type: string\n            maxLength: 3\n").contains("page: str\n"));
    assert!(query_file("            type: string\n            format: uuid\n            maxLength: 4\n").contains("page: 0000\n"));
    assert!(query_file("            type: [\"null\", boolean]\n").contains("page: true\n"));
    assert!(query_file("            enum: [b, a]\n").contains("page: b\n"));
    assert!(query_file("            type: string\n            default: \"x#y\"\n").contains("page: x\\#y\n"));
}

#[test]
fn array_and_object_samples() {
    assert!(query_file("            type: array\n            items:\n              type: integer\n              example: 7\n            minItems: 3\n").contains("page: 7,7,7\n"));
    assert!(query_file("            type: array\n            maxItems: 0\n            items:\n              type: integer\n").contains("page: \n"));
    let body = body_file(
        "              type: object\n              properties:\n                tags:\n                  type: array\n                  minItems: 9\n                  items:\n                    type: string\n                nested:\n                  type: object\n                  required: [a, ghost]\n                  properties:\n                    a:\n                      type: boolean\n",
        "",
    );
    assert!(body.contains("\"tags\": [\n    \"string\",\n    \"string\",\n    \"string\",\n    \"string\",\n    \"string\"\n  ]"));
    assert!(body.contains("\"nested\": {\n    \"a\": true,\n    \"ghost\": \"string\"\n  }"));
}

#[test]
fn composed_and_referenced_samples() {
    let body = body_file(
        "              oneOf:\n                - $ref: \"#/components/schemas/A\"\n                - type: integer\n",
        "components:\n  schemas:\n    A:\n      type: object\n      properties:\n        quote:\n          type: string\n          example: \"say \\\"hi\\\"\\n\"\n",
    );
    assert!(body.contains("\"quote\": \"say \\\"hi\\\"\\n\""));
    let body = body_file(
        "              allOf:\n                - type: string\n                  example: only\n",
        "",
    );
    assert!(body.contains("\n\"only\"\n"));
    let err = generate_from_str(
        "b.yaml",
        "openapi: 3.0.3\ninfo:\n  title: T\n  version: \"1\"\npaths:\n  /b:\n    post:\n      requestBody:\n        content:\n          application/json:\n            schema:\n              type: object\n              properties:\n                x: true\n      responses:\n        \"201\":\n          description: ok\n",
    )
    .unwrap_err();
    assert_eq!(
        err.to_message(),
        "POST /b request body: schema must be an object (boolean schemas are not supported in v0.1)"
    );
}

#[test]
fn decoding_errors_read_like_serde() {
    let err = generate_from_str(
        "t.yaml",
        "openapi: 3.0.3\ninfo:\n  title: 1.5\n  version: \"1\"\npaths:\n  /x:\n    get:\n      responses:\n        \"200\":\n          description: ok\n",
    )
    .unwrap_err();
    assert!(err.to_message().contains("floating point `1.5`"));
    let err = generate_from_str(
        "t.yaml",
        "openapi: 3.0.3\ninfo:\n  title: T\n  version: \"1\"\npaths:\n  /x:\n    get:\n      deprecated: \"yes\"\n      responses:\n        \"200\":\n          description: ok\n",
    )
    .unwrap_err();
    assert!(err.to_message().contains("string \"yes\""));
    let err = generate_from_str(
        "t.yaml",
        "openapi: 3.0.3\ninfo:\n  title: T\n  version: \"1\"\npaths:\n  ? [a]\n  : {}\n",
    )
    .unwrap_err();
    assert!(err.to_message().contains("YAML mapping key must be a string (got Sequence"));
}

#[test]
fn tagged_yaml_values_read_as_their_value() {
    let suite = generate_from_str(
        "t.yaml",
        "openapi: 3.0.3\ninfo:\n  title: !custom Tagged\n  version: \"1\"\npaths:\n  /x:\n    get:\n      responses:\n        \"200\":\n          description: ok\n",
    )
    .unwrap();
    assert!(suite.file("README.md").unwrap().starts_with("# Tagged contract tests\n"));
}

#[test]
fn integer_bounds_within_two_to_the_53_are_used_as_they_are() {
    assert!(query_file("            type: [\"null\", integer]\n            minimum: 3\n").contains("page: 3\n"));
    assert!(query_file("            type: integer\n            minimum: 1\n").contains("page: 1\n"));
    assert!(query_file("            type: integer\n            maximum: -9007199254740992\n").contains("page: -9007199254740992\n"));
    assert!(query_file("            type: integer\n            minimum: 9007199254740992\n").contains("page: 9007199254740992\n"));
    assert!(query_file("            type: integer\n            exclusiveMinimum: 41\n").contains("page: 42\n"));
}

#[test]
fn number_exclusive_minimum_adds_one() {
    assert!(query_file("            type: number\n            exclusiveMinimum: 0.5\n").contains("page: 1.5\n"));
    assert!(query_file("            type: number\n            minimum: -3\n            exclusiveMinimum: true\n").contains("page: -2.0\n"));
}
