//! The DNS codec: every operation on packets under one name.
pub use crate::codec::address::{
    endpoint_from_rdata_with_port, extract_answer_ips, reorder_answer_address_records,
};
pub use crate::codec::answer::{
    analyze_answer_for_name, analyze_answer_for_name_with_dnames, answer_has_cname_for_name,
    answer_has_record_type, answer_has_record_type_for_name, extract_answer_cname_records,
    extract_answer_ip_endpoints, extract_answer_ip_endpoints_with_port,
    extract_answer_records_by_type, extract_first_answer_cname, DnsAnswerAnalysis,
    DnsAnswerFollowupAnalysis,
};
pub use crate::codec::edns::{
    align_response_edns_to_request, append_edns_opt, append_edns_opt_with_options,
    append_edns_opt_with_rcode, clone_edns_opt_from_request, dnssec_ok_requested,
    edns_version_supported, extract_edns_client_subnet, extract_edns_cookie, extract_edns_nsid,
    extract_edns_opt, extract_edns_option, strip_edns_opt_from_request,
    udp_payload_size_for_request, DnsEdnsClientSubnet, DnsEdnsOpt, DnsEdnsOption,
    DNS_EDNS_FLAG_DO, DNS_EDNS_OPTION_CLIENT_SUBNET, DNS_EDNS_OPTION_COOKIE,
    DNS_EDNS_OPTION_NSID, DNS_EDNS_OPTION_PADDING,
};
pub use crate::codec::name::{encode_name, parse_name, skip_name};
pub use crate::codec::query::{
    answer_count, authentic_data, build_dnssec_query_like_request, build_query, build_query_into,
    build_query_like_request, build_query_like_request_into, checking_disabled,
    clear_header_rcode, parse_first_question, parse_request_overview, parse_response_overview,
    qtype_label, qtype_label_opt, response_code, set_authentic_data, set_checking_disabled,
    set_recursion_desired, DnsRequestOverview, DnsResponseOverview, DNS_FLAG_AD, DNS_FLAG_CD,
};
pub use crate::codec::referral::{
    analyze_referral_targets, build_ns_hostname_glue_map, domain_is_same_or_subdomain_of,
    extract_authority_ns_hostnames, extract_glue_nameservers, validate_referral_security,
    DnsReferralAnalysis, Ratio, ReferralSecurityValidation,
};
pub use crate::codec::respond::{
    build_authoritative_answer, build_authoritative_answer_multi, build_authoritative_nodata,
    build_authoritative_nxdomain, build_authoritative_soa_answer, build_badvers_response,
    build_response_with_rcode, build_servfail_response, build_static_answer, encode_soa_rdata,
    fetch_authoritative_answer, CodecError, DnsAdditionalRecord, DNS_RCODE_BADVERS,
    DNS_RCODE_FORMERR, DNS_RCODE_NOTIMP, DNS_RCODE_REFUSED, DNS_RCODE_SERVFAIL, DNS_TYPE_DNSKEY,
    DNS_TYPE_DS, DNS_TYPE_RRSIG,
};
pub use crate::codec::rewrite::{
    append_additional_records, append_answer_records, append_cname_answers,
    rewrite_question_and_reencode_answers, rewrite_question_from_request,
    truncate_response_for_udp,
};
pub use crate::codec::rr::skip_rr;
pub use crate::codec::ttl::{
    decay_response_ttl_in_place, extract_cache_ttl, extract_negative_cache_ttl,
};
pub use crate::codec::wire::{parse_header, DnsHeader};
