use spechurl::{generate_from_str, generate_suite, Suite};

const PETSTORE: &str = r##"openapi: 3.0.3
info:
  title: Pet Store
  version: "1.0.0"
servers:
  - url: https://petstore.example.com
paths:
  /pets:
    get:
      operationId: listPets
      summary: List pets
      parameters:
        - name: limit
          in: query
          schema:
            type: integer
            default: 20
            maximum: 100
        - name: status
          in: query
          schema:
            type: string
            enum: [available, pending, sold]
            default: available
        - name: q
          in: query
          schema:
            type: string
      responses:
        "200":
          description: A list of pets
          content:
            application/json:
              schema:
                type: array
                items:
                  $ref: "#/components/schemas/Pet"
    post:
      operationId: createPet
      requestBody:
        required: true
        content:
          application/json:
            schema:
              $ref: "#/components/schemas/Pet"
      responses:
        "201":
          description: Created
          content:
            application/json:
              schema:
                $ref: "#/components/schemas/Pet"
  /pets/{petId}:
    parameters:
      - name: petId
        in: path
        required: true
        schema:
          type: integer
          example: 123
    get:
      operationId: showPetById
      responses:
        "200":
          description: A pet
          content:
            application/json:
              schema:
                $ref: "#/components/schemas/Pet"
    put:
      operationId: updatePet
      requestBody:
        required: true
        content:
          application/json:
            schema:
              $ref: "#/components/schemas/Pet"
      responses:
        "200":
          description: Updated
          content:
            application/json:
              schema:
                $ref: "#/components/schemas/Pet"
    delete:
      operationId: deletePet
      responses:
        "204":
          description: Deleted
components:
  schemas:
    Pet:
      type: object
      properties:
        id:
          type: integer
          format: int64
          readOnly: true
        name:
          type: string
          example: Fluffy
        tag:
          type: string
          example: cat
        photoUrls:
          type: array
          items:
            type: string
            format: uri
"##;

const EDGE_CASES: &str = r##"openapi: 3.0.3
info:
  title: Edge Cases
  version: "2"
servers:
  - url: https://edge.example.com/v1/
paths:
  /projects/{projectId}/items/{itemId}:
    parameters:
      - name: projectId
        in: path
        required: true
        schema:
          type: string
          example: proj acme
    get:
      parameters:
        - name: itemId
          in: path
          required: true
          schema:
            type: integer
            example: 42
        - name: X-Request-Id
          in: header
          required: true
          schema:
            type: string
            format: uuid
            example: 00000000-0000-0000-0000-000000000001
        - name: include
          in: query
          example: owner
          schema:
            type: string
        - name: limit
          in: query
          schema:
            type: integer
        - name: session
          in: cookie
          schema:
            type: string
      responses:
        "200":
          description: The item
          content:
            application/json:
              schema:
                type: object
  /projects/{projectId}/items:
    parameters:
      - name: projectId
        in: path
        required: true
        schema:
          type: string
          example: proj acme
    post:
      parameters:
        - name: Idempotency-Key
          in: header
          required: true
          schema:
            type: string
            example: idem-1
      requestBody:
        required: true
        content:
          text/plain:
            schema:
              type: string
          application/json:
            schema:
              type: object
              required: [name, count, active]
              properties:
                name:
                  type: string
                  example: Widget
                count:
                  type: integer
                  example: 2
                active:
                  type: boolean
      responses:
        "201":
          description: Created
          content:
            application/json:
              schema:
                type: object
        "202":
          description: Accepted
  /search:
    get:
      responses:
        "404":
          description: Not implemented yet
        default:
          description: Error
"##;

const WIDGETS: &str = r##"{
  "openapi": "3.1.0",
  "info": { "title": "Widgets", "version": "3" },
  "paths": {
    "/widgets": {
      "post": {
        "requestBody": {
          "required": true,
          "content": {
            "application/json": {
              "schema": {
                "type": "object",
                "required": ["count", "name"],
                "properties": {
                  "count": { "type": "integer", "const": 1 },
                  "name": { "type": "string", "examples": ["Cog"] },
                  "label": { "type": "string" },
                  "active": { "type": "boolean" }
                }
              }
            }
          }
        },
        "responses": {
          "200": {
            "description": "Created",
            "content": {
              "application/vnd.api+json": { "schema": { "type": "object" } }
            }
          },
          "2XX": { "description": "Other success" }
        }
      }
    }
  }
}
"##;

fn fixture(path: &str) -> &'static str {
    match path {
        "fixtures/petstore.yaml" => PETSTORE,
        "fixtures/edge-cases.yaml" => EDGE_CASES,
        "fixtures/widgets.openapi.json" => WIDGETS,
        other => panic!("no fixture {other}"),
    }
}

fn spec(name: &str) -> Suite {
    let file_name = name.rsplit('/').next();
    generate_suite(name, file_name, Ok(fixture(name).as_bytes().to_vec()))
        .unwrap_or_else(|err| panic!("generate {name}: {}", err.to_message()))
}

fn file<'a>(suite: &'a Suite, name: &str) -> &'a String {
    suite
        .file(name)
        .unwrap_or_else(|| panic!("suite has no file {name}"))
}

#[test]
fn petstore_emits_one_file_per_operation() {
    let suite = spec("fixtures/petstore.yaml");
    let names: Vec<String> = suite
        .files
        .iter()
        .map(|(name, _)| name.clone())
        .filter(|name| name.ends_with(".hurl"))
        .collect();
    assert_eq!(
        names,
        vec![
            "delete_pets_petid.hurl",
            "get_pets.hurl",
            "get_pets_petid.hurl",
            "post_pets.hurl",
            "put_pets_petid.hurl",
        ]
    );
    assert!(suite.contains_key("README.md"));

    let list = file(&suite, "get_pets.hurl");
    assert!(list.contains("GET {{base_url}}/pets\n"));
    assert!(list.contains("[Query]\nlimit: 20\nstatus: available\n"));
    assert!(!list.contains("\nq:"));
    assert!(list.contains("HTTP 200\n"));
    assert!(list.contains("header \"Content-Type\" contains \"application/json\""));
    assert!(list.contains("operationId: listPets"));

    let create = file(&suite, "post_pets.hurl");
    assert!(create.contains("POST {{base_url}}/pets\n"));
    assert!(create.contains("HTTP 201\n"));
    assert!(create.contains("\"name\": \"Fluffy\""));
    assert!(create.contains("\"photoUrls\""));
    let name_at = create.find("\"name\"").unwrap();
    let tag_at = create.find("\"tag\"").unwrap();
    assert!(name_at < tag_at, "object keys are sorted");

    let show = file(&suite, "get_pets_petid.hurl");
    assert!(show.contains("GET {{base_url}}/pets/123\n"));

    let delete = file(&suite, "delete_pets_petid.hurl");
    assert!(delete.contains("DELETE {{base_url}}/pets/123\n"));
    assert!(delete.contains("HTTP 204\n"));
    assert!(!delete.contains("[Asserts]"));

    let update = file(&suite, "put_pets_petid.hurl");
    assert!(update.contains("\"name\": \"Fluffy\""));
    assert!(
        !update.contains("\"id\""),
        "readOnly properties stay out of request bodies"
    );

    let readme = file(&suite, "README.md");
    assert!(readme.contains("petstore.yaml"));
    assert!(readme.contains("https://petstore.example.com"));
    assert!(readme.contains("hurl --variable base_url=https://petstore.example.com --test ."));
}

#[test]
fn edge_cases_cover_path_headers_and_json_body() {
    let suite = spec("fixtures/edge-cases.yaml");
    let get = file(&suite, "get_projects_projectid_items_itemid.hurl");
    assert!(get.contains("GET {{base_url}}/projects/proj%20acme/items/42\n"));
    assert!(get.contains("X-Request-Id: 00000000-0000-0000-0000-000000000001\n"));
    assert!(get.contains("Accept: application/json\n"));
    assert!(get.contains("[Query]\ninclude: owner\n"));
    assert!(
        !get.contains("limit:"),
        "optional query without a sample is omitted"
    );
    assert!(get.contains("cookie parameters are not emitted"));
    assert!(get.contains("HTTP 200\n"));

    let create = file(&suite, "post_projects_projectid_items.hurl");
    assert!(create.contains("POST {{base_url}}/projects/proj%20acme/items\n"));
    assert!(create.contains("Idempotency-Key: idem-1\n"));
    assert!(create.contains("\"name\": \"Widget\""));
    assert!(create.contains("\"count\": 2"));
    assert!(create.contains("\"active\": true"));
    assert!(create.contains("HTTP 201\n"));
    assert!(create.contains("other documented success statuses: 202"));
    assert!(create.contains("request body uses application/json; also documented: text/plain"));
    assert!(create.contains("https://edge.example.com/v1"));
    assert!(!create.contains("https://edge.example.com/v1/"));

    let search = file(&suite, "get_search.hurl");
    assert!(search.contains("no 2xx response is documented; asserting 404"));
    assert!(search.contains("HTTP 404\n"));
}

#[test]
fn openapi_31_json_uses_const_examples_and_json_content_type() {
    let suite = spec("fixtures/widgets.openapi.json");
    let create = file(&suite, "post_widgets.hurl");
    assert!(create.contains("\"count\": 1"));
    assert!(create.contains("\"name\": \"Cog\""));
    assert!(!create.contains("\"label\""));
    assert!(!create.contains("\"active\""));
    assert!(create.contains("Content-Type: application/json\n"));
    assert!(create.contains("HTTP 200\n"));
    assert!(create.contains("other documented success statuses: 2XX"));
    assert!(create.contains("header \"Content-Type\" contains \"application/vnd.api+json\""));
    assert!(file(&suite, "README.md").contains("3.1.0"));
}

#[test]
fn output_is_deterministic_and_newline_terminated() {
    let first = spec("fixtures/petstore.yaml");
    let second = spec("fixtures/petstore.yaml");
    assert_eq!(first, second);
    for (_, contents) in &first.files {
        assert!(contents.ends_with('\n'));
        assert!(!contents.ends_with("\n\n"));
        assert!(!contents.contains('\r'));
    }
}

#[test]
fn invalid_documents_have_clear_errors() {
    let missing = generate_suite(
        "fixtures/nope.yaml",
        Some("nope.yaml"),
        Err("No such file or directory (os error 2)".to_string()),
    )
    .unwrap_err();
    assert!(missing.to_message().contains("could not read"));
    assert_eq!(missing.exit_code(), 2);

    let broken = generate_from_str("broken.yaml", "openapi: [\n").unwrap_err();
    assert!(broken.to_message().contains("could not parse"));

    let swagger = generate_from_str(
        "swagger.yaml",
        "swagger: \"2.0\"\ninfo:\n  title: Old\n  version: \"1\"\npaths: {}\n",
    )
    .unwrap_err();
    assert!(swagger.to_message().contains("OpenAPI 2.0"));

    let version = generate_from_str(
        "v4.yaml",
        "openapi: 4.0.0\ninfo:\n  title: Future\n  version: \"1\"\npaths:\n  /x:\n    get:\n      responses:\n        \"200\":\n          description: ok\n",
    )
    .unwrap_err();
    assert!(version.to_message().contains("unsupported OpenAPI version"));

    let external = generate_from_str(
        "external.yaml",
        "openapi: 3.0.3\ninfo:\n  title: E\n  version: \"1\"\npaths:\n  /x:\n    get:\n      parameters:\n        - $ref: \"./other.yaml#/components/parameters/Id\"\n      responses:\n        \"200\":\n          description: ok\n",
    )
    .unwrap_err();
    assert!(external.to_message().contains("external $ref"));

    let unresolved = generate_from_str(
        "missing-ref.yaml",
        "openapi: 3.0.3\ninfo:\n  title: E\n  version: \"1\"\npaths:\n  /x/{id}:\n    get:\n      parameters:\n        - $ref: \"#/components/parameters/Missing\"\n      responses:\n        \"200\":\n          description: ok\n",
    )
    .unwrap_err();
    assert!(unresolved.to_message().contains("unresolved $ref"));

    let empty = generate_from_str(
        "empty.yaml",
        "openapi: 3.1.0\ninfo:\n  title: E\n  version: \"1\"\npaths: {}\n",
    )
    .unwrap_err();
    assert!(empty.to_message().contains("no paths"));
}

#[test]
fn schema_samples_cover_cycles_allof_and_minimums() {
    let source = r##"
openapi: 3.0.3
info:
  title: Samples
  version: "1"
paths:
  /nodes:
    post:
      operationId: createNode
      requestBody:
        required: true
        content:
          application/json:
            schema:
              $ref: "#/components/schemas/Node"
      responses:
        "204":
          description: stored
  /limits:
    get:
      parameters:
        - name: page
          in: query
          required: true
          schema:
            type: integer
            minimum: 1
      responses:
        "2XX":
          description: range
components:
  schemas:
    Node:
      type: object
      required: [name, child, extra]
      properties:
        name:
          type: string
        child:
          $ref: "#/components/schemas/Node"
        extra:
          allOf:
            - type: object
              required: [left]
              properties:
                left:
                  type: string
                  example: L
            - type: object
              required: [right]
              properties:
                right:
                  type: integer
                  example: 2
"##;
    let suite = generate_from_str("samples.yaml", source).unwrap();
    let body = file(&suite, "post_nodes.hurl");
    assert!(body.contains("\"name\": \"string\""));
    assert!(body.contains("\"child\": null"));
    assert!(body.contains("\"left\": \"L\""));
    assert!(body.contains("\"right\": 2"));
    let limits = file(&suite, "get_limits.hurl");
    assert!(limits.contains("[Query]\npage: 1\n"));
    assert!(limits.contains("HTTP *\n"));
    assert!(limits.contains("status >= 200\n"));
    assert!(limits.contains("status < 300\n"));
}

#[test]
fn form_and_text_bodies() {
    let source = r#"
openapi: 3.0.3
info:
  title: Bodies
  version: "1"
paths:
  /login:
    post:
      requestBody:
        required: true
        content:
          application/x-www-form-urlencoded:
            schema:
              type: object
              required: [username, password]
              properties:
                username:
                  type: string
                  example: ada
                password:
                  type: string
                  example: "secret#1"
      responses:
        "204":
          description: signed in
  /note:
    put:
      requestBody:
        required: true
        content:
          text/plain:
            schema:
              type: string
              example: hello
      responses:
        "200":
          description: stored
          content:
            text/plain:
              schema:
                type: string
"#;
    let suite = generate_from_str("bodies.yaml", source).unwrap();
    let login = file(&suite, "post_login.hurl");
    assert!(login.contains("[Form]\npassword: secret\\#1\nusername: ada\n"));
    assert!(!login.contains("Content-Type:"));
    let note = file(&suite, "put_note.hurl");
    assert!(note.contains("Content-Type: text/plain\n`hello`\n"));
    assert!(note.contains("header \"Content-Type\" contains \"text/plain\""));
}

#[test]
fn colliding_paths_get_stable_suffixes() {
    let source = r#"
openapi: 3.0.3
info:
  title: Collide
  version: "1"
paths:
  /a/b:
    get:
      responses:
        "200":
          description: first
  /a_b:
    get:
      responses:
        "200":
          description: second
"#;
    let suite = generate_from_str("collide.yaml", source).unwrap();
    assert!(suite.contains_key("get_a_b.hurl"));
    assert!(suite.contains_key("get_a_b_2.hurl"));
    assert!(file(&suite, "get_a_b.hurl").contains("GET /a/b"));
    assert!(file(&suite, "get_a_b_2.hurl").contains("GET /a_b"));
}

fn fresh_reads(suite: &Suite) -> Vec<spechurl::FileRead> {
    suite
        .files
        .iter()
        .map(|(_, contents)| spechurl::FileRead::Contents(contents.as_bytes().to_vec()))
        .collect()
}

fn listing_of(suite: &Suite) -> Result<Vec<Option<String>>, String> {
    Ok(suite.files.iter().map(|(name, _)| Some(name.clone())).collect())
}

fn check(
    suite: &Suite,
    reads: &Vec<spechurl::FileRead>,
    listing: &Result<Vec<Option<String>>, String>,
) -> Result<usize, spechurl::Error> {
    spechurl::check_suite(
        "fixtures/petstore.yaml",
        "hurl",
        suite,
        spechurl::DirState::Directory,
        reads,
        listing,
    )
}

#[test]
fn check_accepts_a_fresh_suite_and_rejects_drift() {
    let suite = spec("fixtures/petstore.yaml");
    let mut reads = fresh_reads(&suite);
    let mut listing = listing_of(&suite);
    let count = check(&suite, &reads, &listing).unwrap();
    assert_eq!(count, suite.files.len());

    let index = suite
        .files
        .iter()
        .position(|(name, _)| name == "get_pets.hurl")
        .unwrap();
    let text = suite.files[index].1.replace("HTTP 200", "HTTP 599");
    reads[index] = spechurl::FileRead::Contents(text.into_bytes());
    let err = check(&suite, &reads, &listing).unwrap_err();
    let message = err.to_message();
    assert!(message.contains("mismatch: get_pets.hurl"));
    assert_eq!(err.exit_code(), 1);

    listing
        .as_mut()
        .unwrap()
        .push(Some("extra.hurl".to_string()));
    let message = check(&suite, &reads, &listing).unwrap_err().to_message();
    assert!(message.contains("unexpected: extra.hurl"));

    let post = suite
        .files
        .iter()
        .position(|(name, _)| name == "post_pets.hurl")
        .unwrap();
    reads[post] = spechurl::FileRead::NotFound;
    listing
        .as_mut()
        .unwrap()
        .retain(|name| name.as_deref() != Some("post_pets.hurl"));
    let message = check(&suite, &reads, &listing).unwrap_err().to_message();
    assert!(message.contains("missing: post_pets.hurl"));
}

#[test]
fn check_treats_crlf_as_the_same_suite() {
    let suite = spec("fixtures/petstore.yaml");
    let mut reads = fresh_reads(&suite);
    let index = suite
        .files
        .iter()
        .position(|(name, _)| name == "README.md")
        .unwrap();
    let text = suite.files[index].1.replace('\n', "\r\n");
    reads[index] = spechurl::FileRead::Contents(text.into_bytes());
    check(&suite, &reads, &listing_of(&suite)).unwrap();
}

#[test]
fn check_reports_a_missing_directory_as_drift() {
    let suite = spec("fixtures/petstore.yaml");
    let reads: Vec<spechurl::FileRead> = suite
        .files
        .iter()
        .map(|_| spechurl::FileRead::NotFound)
        .collect();
    let err = spechurl::check_suite(
        "fixtures/petstore.yaml",
        "hurl",
        &suite,
        spechurl::DirState::Missing,
        &reads,
        &Ok(Vec::new()),
    )
    .unwrap_err();
    assert_eq!(
        err.to_message(),
        "Hurl suite is out of sync with 'fixtures/petstore.yaml':\n  directory 'hurl' does not exist\nRegenerate with: spechurl generate fixtures/petstore.yaml --out hurl"
    );
    assert_eq!(err.exit_code(), 1);

    let err = spechurl::check_suite(
        "fixtures/petstore.yaml",
        "hurl",
        &suite,
        spechurl::DirState::NotDirectory,
        &reads,
        &Ok(Vec::new()),
    )
    .unwrap_err();
    assert_eq!(err.to_message(), "'hurl' is not a directory");
    assert_eq!(err.exit_code(), 2);
}

#[test]
fn check_stops_at_read_errors() {
    let suite = spec("fixtures/petstore.yaml");
    let mut reads = fresh_reads(&suite);
    reads[1] = spechurl::FileRead::Failed {
        path: "hurl/x".to_string(),
        message: "denied".to_string(),
    };
    let err = check(&suite, &reads, &listing_of(&suite)).unwrap_err();
    assert_eq!(err.to_message(), "could not read 'hurl/x': denied");
    assert_eq!(err.exit_code(), 2);

    let reads = fresh_reads(&suite);
    let err = check(&suite, &reads, &Err("gone".to_string())).unwrap_err();
    assert_eq!(err.to_message(), "could not read 'hurl': gone");
}

#[test]
fn check_names_the_first_different_line_and_caps_the_report() {
    let suite = spec("fixtures/petstore.yaml");
    let mut reads = fresh_reads(&suite);
    let index = suite
        .files
        .iter()
        .position(|(name, _)| name == "get_pets.hurl")
        .unwrap();
    let mut lines: Vec<&str> = suite.files[index].1.split('\n').collect();
    lines[2] = "# changed";
    reads[index] = spechurl::FileRead::Contents(lines.join("\n").into_bytes());
    let message = check(&suite, &reads, &listing_of(&suite))
        .unwrap_err()
        .to_message();
    assert!(message.contains("mismatch: get_pets.hurl (first difference at line 3)"));

    let mut reads = fresh_reads(&suite);
    let head: Vec<&str> = suite.files[index].1.split('\n').take(3).collect();
    reads[index] = spechurl::FileRead::Contents(head.join("\n").into_bytes());
    let message = check(&suite, &reads, &listing_of(&suite))
        .unwrap_err()
        .to_message();
    assert!(message.contains("(generated file has"));
    assert!(message.contains("committed file has 3 lines)"));

    let mut reads = fresh_reads(&suite);
    reads[index] = spechurl::FileRead::Contents(vec![0xff, 0xfe]);
    let message = check(&suite, &reads, &listing_of(&suite))
        .unwrap_err()
        .to_message();
    assert!(message.contains("mismatch: get_pets.hurl (not valid UTF-8)"));

    let reads = fresh_reads(&suite);
    let mut names = listing_of(&suite).unwrap();
    for i in 0..105 {
        names.push(Some(format!("extra{i:03}.hurl")));
    }
    names.push(Some("notes.txt".to_string()));
    names.push(None);
    let message = check(&suite, &reads, &Ok(names)).unwrap_err().to_message();
    assert!(message.starts_with("Hurl suite is out of sync with 'fixtures/petstore.yaml':\n  unexpected: extra000.hurl\n"));
    assert!(message.contains("unexpected: extra099.hurl"));
    assert!(!message.contains("unexpected: extra100.hurl"));
    assert!(message.contains("\n  ... and 5 more\nRegenerate with: spechurl generate fixtures/petstore.yaml --out hurl"));
    assert!(!message.contains("notes.txt"));
}

#[test]
fn unsafe_file_names_are_refused() {
    assert!(spechurl::check_file_name("get_pets.hurl").is_ok());
    for name in ["", ".", "..", "a/b", "a\\b", "a\0b"] {
        let err = spechurl::check_file_name(name).unwrap_err();
        assert_eq!(
            err.to_message(),
            format!("refusing to write unsafe file name '{name}'")
        );
    }
}

#[test]
fn suite_file_names_are_sorted_and_unique() {
    let suite = spec("fixtures/edge-cases.yaml");
    let names: Vec<&String> = suite.files.iter().map(|(name, _)| name).collect();
    for pair in names.windows(2) {
        assert!(pair[0] < pair[1]);
    }
    assert_eq!(suite.len(), 4);
}

#[test]
fn documents_that_are_not_utf8_are_refused() {
    let err = generate_suite("bad.yaml", Some("bad.yaml"), Ok(vec![0x6f, 0xff, 0x0a])).unwrap_err();
    assert_eq!(
        err.to_message(),
        "could not parse 'bad.yaml': file is not valid UTF-8 (OpenAPI documents must be UTF-8 YAML or JSON)"
    );
    let suite = generate_suite(
        "dir/samples.yaml",
        None,
        Ok("openapi: 3.0.3\ninfo:\n  title: T\n  version: \"1\"\npaths:\n  /x:\n    get:\n      responses:\n        \"200\":\n          description: ok\n"
            .as_bytes()
            .to_vec()),
    )
    .unwrap();
    assert!(file(&suite, "README.md").contains("from `openapi`"));
}
