use kaspa_txkit::stubs::{
    fix_rpc_method_signatures, fix_utxo_processor_event_listener_overloads,
    remove_duplicate_default_none, rename_none_enum_variant, snake_to_pascal,
    strip_py_prefix_from_enums, transform_rpc_method_line,
};

#[test]
fn snake_case_becomes_pascal_case() {
    assert_eq!(snake_to_pascal("get_block_count"), "GetBlockCount");
    assert_eq!(snake_to_pascal("ping"), "Ping");
    assert_eq!(snake_to_pascal(""), "");
    assert_eq!(snake_to_pascal("a__b"), "AB");
    assert_eq!(snake_to_pascal("_x_"), "X");
}

#[test]
fn optional_request_gets_typed() {
    let line = "    def get_block_count(self, request: typing.Optional[dict] = None) -> typing.Any: ...";
    assert_eq!(
        transform_rpc_method_line(line),
        "    def get_block_count(self, request: GetBlockCountRequest | None = None) -> GetBlockCountResponse: ..."
    );
}

#[test]
fn required_request_gets_typed() {
    let line = "    async def submit_transaction(self, request: dict) -> typing.Any: ...";
    assert_eq!(
        transform_rpc_method_line(line),
        "    async def submit_transaction(self, request: SubmitTransactionRequest) -> SubmitTransactionResponse: ..."
    );
}

#[test]
fn plain_methods_are_left_alone() {
    for line in [
        "    def subscribe_utxos_changed(self, request: dict) -> typing.Any: ...",
        "    def unsubscribe_daa(self, request: dict) -> typing.Any: ...",
        "    def connect(self, request: dict) -> typing.Any: ...",
        "    def remove_listener(self, request: dict) -> typing.Any: ...",
        "    def get_info(self) -> typing.Any: ...",
        "    def get_info(self, request: dict) -> str: ...",
        "request: dict -> typing.Any",
    ] {
        assert_eq!(transform_rpc_method_line(line), line);
    }
}

#[test]
fn rpc_signatures_fixed_line_by_line() {
    let content = "class RpcClient:\r\n    def get_info(self, request: dict) -> typing.Any: ...\n    def stop(self) -> None: ...";
    assert_eq!(
        fix_rpc_method_signatures(content.to_string()),
        "class RpcClient:\n    def get_info(self, request: GetInfoRequest) -> GetInfoResponse: ...\n    def stop(self) -> None: ..."
    );
    assert_eq!(fix_rpc_method_signatures("x\n".to_string()), "x\n");
    assert_eq!(fix_rpc_method_signatures(String::new()), "");
    assert_eq!(fix_rpc_method_signatures("a\n\nb\n".to_string()), "a\n\nb\n");
}

#[test]
fn py_prefix_stripped_from_enums() {
    let content = "class PyNetworkType(enum.Enum):\n    MAINNET = ...\nclass PyAddress:\n    def f(self, t: PyNetworkType) -> PyAddress: ...\n";
    assert_eq!(
        strip_py_prefix_from_enums(content.to_string()),
        "class NetworkType(enum.Enum):\n    MAINNET = ...\nclass PyAddress:\n    def f(self, t: NetworkType) -> PyAddress: ...\n"
    );
    assert_eq!(strip_py_prefix_from_enums("class Foo(enum.Enum):\n".to_string()), "class Foo(enum.Enum):\n");
}

#[test]
fn none_variant_renamed() {
    assert_eq!(
        rename_none_enum_variant("class E(enum.Enum):\n    None = ...\n    Some = ...\n".to_string()),
        "class E(enum.Enum):\n    _None = ...\n    Some = ...\n"
    );
}

#[test]
fn duplicate_default_none_removed() {
    assert_eq!(
        remove_duplicate_default_none("def f(language: str | Language = Language.English = None) -> None: ...".to_string()),
        "def f(language: str | Language = Language.English) -> None: ..."
    );
    assert_eq!(
        remove_duplicate_default_none("def f(x: int = None) -> None: ...".to_string()),
        "def f(x: int = None) -> None: ..."
    );
}

#[test]
fn listener_overloads_inserted() {
    let add = "    def add_event_listener(self, event_or_callback: typing.Any, callback: typing.Optional[typing.Any] = None, *args: typing.Any, **kwargs: typing.Any) -> None:";
    let content = format!("class UtxoProcessor:\n{add}\n        ...\n");
    let out = fix_utxo_processor_event_listener_overloads(content.clone());
    assert!(out.starts_with("class UtxoProcessor:\n    @typing.overload\n    def add_event_listener(self, callback: typing.Callable[..., typing.Any]"));
    assert!(out.ends_with(&format!("{add}\n        ...\n")));
    assert_eq!(out.matches("@typing.overload").count(), 2);
    assert_eq!(fix_utxo_processor_event_listener_overloads("x".to_string()), "x");
}
